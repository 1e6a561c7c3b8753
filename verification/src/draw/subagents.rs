//! The subagent rows, between the turn status and the prompt box.
//!
//! Delegated work is the one thing happening in a turn that leaves no trace in the transcript
//! until it is finished. These rows are that trace.

use vstd::prelude::*;
use crate::draw::markdown::overflows;
use crate::draw::status;
use crate::draw::status::tokens_shown;
use crate::draw::turn_status;
use crate::draw::turn_status::duration_shown;
use crate::style::{
    append_lines, blank_line, bolded, colored, line_of, line_views, on_screen, plain, push_line,
    push_span, raw, span_views, styled, styled_line, Color, Line, LineView, Rect, Span, Style,
};
use crate::text;
use crate::text::{lines_of, opt, repeated, texts, trimmed, words_of};

verus! {

/// At most this many rows, so a model that starts a dozen subagents cannot push the prompt box
/// off the screen.
pub const MAX_ROWS: usize = 6;

/// Below this the row has no room for a title worth reading, so it is not drawn at all rather
/// than drawn as ellipses.
pub const MIN_WIDTH: u16 = 24;

/// A subagent under way, or finished and not yet collected.
#[derive(Debug, PartialEq, Eq)]
pub struct Subagent {
    pub id: String,
    pub task: String,
    /// How it ended, once it has.
    pub status: Option<String>,
    pub input_tokens: u64,
}

/// What a [`Subagent`] says.
pub struct SubagentView {
    pub id: Seq<char>,
    pub task: Seq<char>,
    pub status: Option<Seq<char>>,
    pub input_tokens: nat,
}

impl View for Subagent {
    type V = SubagentView;

    open spec fn view(&self) -> SubagentView {
        SubagentView {
            id: self.id@,
            task: self.task@,
            status: opt(self.status),
            input_tokens: self.input_tokens as nat,
        }
    }
}

/// How many rows are drawn.
pub fn rows(count: usize) -> (r: u16)
    ensures
        r == (if count < MAX_ROWS {
            count as int
        } else {
            MAX_ROWS as int
        }),
{
    if count < MAX_ROWS {
        count as u16
    } else {
        6
    }
}

/// `☐` while it runs, `☑` when it finished cleanly, `☒` when it did not.
pub open spec fn box_of(status: Option<Seq<char>>) -> (Seq<char>, Color) {
    match status {
        None => ("☐"@, Color::Magenta),
        Some(status) => if status == "completed"@ {
            ("☑"@, Color::Green)
        } else {
            ("☒"@, Color::Red)
        },
    }
}

/// `☐` while it runs, `☑` when it finished cleanly, `☒` when it did not.
pub fn checkbox(status: Option<&str>) -> (r: (&'static str, Color))
    ensures
        (r.0@, r.1) == box_of(
            match status {
                Some(status) => Some(status@),
                None => None,
            },
        ),
{
    match status {
        None => ("☐", Color::Magenta),
        Some(status) => if text::eq(status, "completed") {
            ("☑", Color::Green)
        } else {
            ("☒", Color::Red)
        },
    }
}

/// The first line of a task, without the white space around it.
pub open spec fn titled(task: Seq<char>) -> Seq<char> {
    let lines = lines_of(task);
    if lines.len() == 0 {
        Seq::empty()
    } else {
        trimmed(lines[0])
    }
}

/// The first line of the task, which is what a person wrote it as: an instruction's first line
/// is its subject, and the rest is detail that only fits in the popup anyway.
pub fn title(task: &str) -> (r: String)
    ensures
        r@ == titled(task@),
{
    let lines = text::lines(task);
    if lines.len() == 0 {
        let none = String::new();
        assert(texts(lines@).len() == 0);
        assert(none@ =~= Seq::<char>::empty());
        none
    } else {
        assert(texts(lines@)[0] == lines@[0]@);
        text::trim(lines[0].as_str())
    }
}

/// Lines being filled with words: those that are full and the one under way.
pub struct Filling {
    pub lines: Seq<Seq<char>>,
    pub current: Seq<char>,
}

/// Some words on lines of `width`, a longer word on a line of its own.
pub open spec fn filling(words: Seq<Seq<char>>, width: nat) -> Filling
    decreases words.len(),
{
    if words.len() == 0 {
        Filling { lines: Seq::empty(), current: Seq::empty() }
    } else {
        let before = filling(words.drop_last(), width);
        let word = words.last();
        if before.current.len() == 0 {
            Filling { lines: before.lines, current: word }
        } else if before.current.len() + 1 + word.len() > width {
            Filling { lines: before.lines.push(before.current), current: word }
        } else {
            Filling { lines: before.lines, current: before.current + " "@ + word }
        }
    }
}

/// A text broken on white space at `width` columns.
pub open spec fn word_wrapped(s: Seq<char>, width: nat) -> Seq<Seq<char>> {
    if width == 0 {
        seq![s]
    } else {
        let state = filling(words_of(s), width);
        if state.current.len() > 0 {
            state.lines.push(state.current)
        } else {
            state.lines
        }
    }
}

/// Breaks `s` on white space at `width` columns, keeping a word that is longer than the line
/// whole rather than losing part of a path or an identifier.
pub fn wrap(s: &str, width: usize) -> (r: Vec<String>)
    ensures
        texts(r@) == word_wrapped(s@, width as nat),
{
    let mut lines: Vec<String> = Vec::new();
    if width == 0 {
        lines.push(text::copy(s));
        assert(texts(lines@) =~= seq![s@]);
        return lines;
    }
    let words = text::split_white_space(s);
    let ghost all = texts(words@);
    let mut current = String::new();
    let mut i: usize = 0;
    proof {
        assert(all.take(0) =~= Seq::empty());
        assert(texts(lines@) =~= Seq::empty());
        assert(current@ =~= Seq::<char>::empty());
    }
    while i < words.len()
        invariant
            i <= words.len(),
            all == texts(words@),
            (Filling { lines: texts(lines@), current: current@ }) == filling(
                all.take(i as int),
                width as nat,
            ),
        decreases words.len() - i,
    {
        assert(all.take(i as int + 1).drop_last() =~= all.take(i as int));
        assert(all[i as int] == words@[i as int]@);
        let word = words[i].as_str();
        let used: usize = current.as_str().unicode_len();
        if used == 0 {
            current = text::copy(word);
        } else if overflows(used, word.unicode_len(), width) {
            let ghost done = texts(lines@).push(current@);
            lines.push(current);
            assert(texts(lines@) =~= done);
            current = text::copy(word);
        } else {
            current.append(" ");
            current.append(word);
        }
        i += 1;
    }
    assert(all.take(i as int) =~= all);
    if current.as_str().unicode_len() > 0 {
        let ghost done = texts(lines@).push(current@);
        lines.push(current);
        assert(texts(lines@) =~= done);
    }
    lines
}

/// What stands at the right of a row: what it cost, as far as that is known, and how long it
/// has been running.
pub open spec fn row_right(agent: SubagentView, seconds: nat) -> Seq<char> {
    if agent.input_tokens > 0 {
        "⇣"@ + tokens_shown(agent.input_tokens) + " · "@ + duration_shown(seconds)
    } else {
        duration_shown(seconds)
    }
}

/// What stands at the left of a row, before it is cut.
pub open spec fn row_left(agent: SubagentView) -> Seq<char> {
    " "@ + box_of(agent.status).0 + " "@ + titled(agent.task) + " "@
}

/// How many columns are free between the two.
pub open spec fn row_gap(width: nat, left: nat, right: nat) -> nat {
    if width > left + right + 1 {
        (width - (left + right + 1)) as nat
    } else {
        0
    }
}

/// The left of a row as the row has room for it: where there is none for both, the title gives
/// way to the cost.
pub open spec fn row_left_cut(agent: SubagentView, width: nat, right: nat) -> Seq<char> {
    let left = row_left(agent);
    if row_gap(width, left.len(), right) > 0 {
        left
    } else {
        let room = if width > right + 4 {
            (width - (right + 4)) as nat
        } else {
            0
        };
        let named = left.skip(3);
        let kept = if named.len() > room {
            named.take(room as int)
        } else {
            named
        };
        " "@ + box_of(agent.status).0 + " "@ + kept + "… "@
    }
}

/// A row: the title runs from the left and the cost from the right.
pub open spec fn row_line(agent: SubagentView, seconds: nat, width: u16) -> LineView {
    let right = row_right(agent, seconds);
    let left = row_left_cut(agent, width as nat, right.len());
    line_of(
        seq![
            styled(left, bolded(colored(box_of(agent.status).1))),
            raw(repeated(' ', row_gap(width as nat, left.len(), right.len()))),
            styled(right + " "@, colored(Color::DarkGray)),
        ],
    )
}

/// How many columns are free between the two.
fn free_columns(width: usize, left: usize, right: usize) -> (r: usize)
    ensures
        r == row_gap(width as nat, left as nat, right as nat),
{
    if width > left && width - left > right && width - left - right > 1 {
        width - left - right - 1
    } else {
        0
    }
}

impl Subagent {
    /// How this subagent ended, once it has.
    fn status(&self) -> (r: Option<&str>)
        ensures
            self@.status == (match r {
                Some(status) => Some(status@),
                None => None,
            }),
    {
        match &self.status {
            Some(status) => Some(status.as_str()),
            None => None,
        }
    }

    /// What stands at the right of the row.
    fn right(&self, seconds: u64) -> (r: String)
        ensures
            r@ == row_right(self@, seconds as nat),
    {
        let clock = turn_status::format_duration(seconds);
        if self.input_tokens > 0 {
            let cost = status::tokens(self.input_tokens);
            let mut r = text::concat3("⇣", cost.as_str(), " · ");
            r.append(clock.as_str());
            r
        } else {
            clock
        }
    }

    /// The row of this subagent, `seconds` after it started.
    pub fn line(&self, seconds: u64, width: u16) -> (r: Line)
        ensures
            r@ == row_line(self@, seconds as nat, width),
    {
        let (mark, color) = checkbox(self.status());
        let right = self.right(seconds);
        let right_len: usize = right.as_str().unicode_len();
        let w: usize = width as usize;
        let name = title(self.task.as_str());
        let mut left = text::concat3(" ", mark, " ");
        left.append(name.as_str());
        left.append(" ");
        if free_columns(w, left.as_str().unicode_len(), right_len) == 0 {
            let room: usize = if w > right_len && w - right_len > 4 {
                w - right_len - 4
            } else {
                0
            };
            let v = text::to_chars(left.as_str());
            proof {
                lemma_mark_is_one(self@.status);
                reveal_strlit(" ");
            }
            let end: usize = if v.len() - 3 > room {
                3 + room
            } else {
                v.len()
            };
            let kept = text::from_chars(&v, 3, end);
            assert(v.len() - 3 > room ==> kept@ =~= left@.skip(3).take(room as int));
            assert(v.len() - 3 <= room ==> kept@ =~= left@.skip(3));
            left = text::concat3(" ", mark, " ");
            left.append(kept.as_str());
            left.append("… ");
        }
        let pad: usize = free_columns(w, left.as_str().unicode_len(), right_len);
        let spaces = text::repeat(' ', pad);
        let tail = text::concat(right.as_str(), " ");
        let mut spans: Vec<Span> = Vec::new();
        assert(span_views(spans@) =~= Seq::empty());
        push_span(&mut spans, Span::styled(left.as_str(), Style::new().fg(color).bold()));
        push_span(&mut spans, Span::raw(spaces.as_str()));
        push_span(&mut spans, Span::styled(tail.as_str(), Style::new().fg(Color::DarkGray)));
        assert(span_views(spans@) =~= row_line(self@, seconds as nat, width).spans);
        Line::of(spans)
    }

    /// The lines of the popup a click on the row opens: the whole task, which the row could
    /// only show the first line of.
    fn popup_lines(&self, seconds: u64, inner: usize) -> (r: Vec<Line>)
        ensures
            line_views(r@) == popup_lines(self@, seconds as nat, inner as nat),
    {
        let mut spans: Vec<Span> = Vec::new();
        assert(span_views(spans@) =~= Seq::empty());
        let id = text::concat3("  ", self.id.as_str(), " ");
        push_span(&mut spans, Span::styled(id.as_str(), Style::new().bold()));
        let state = match self.status() {
            Some(status) => text::copy(status),
            None => text::copy("running"),
        };
        let cost = status::tokens(self.input_tokens);
        let clock = turn_status::format_duration(seconds);
        let mut told = text::concat3("· ", state.as_str(), " · ⇣");
        told.append(cost.as_str());
        told.append(" · ");
        told.append(clock.as_str());
        push_span(&mut spans, Span::styled(told.as_str(), Style::new().fg(Color::DarkGray)));
        assert(span_views(spans@) =~= popup_head(self@, seconds as nat).spans);
        let mut lines: Vec<Line> = Vec::new();
        assert(line_views(lines@) =~= Seq::empty());
        push_line(&mut lines, Line::of(spans));
        push_line(&mut lines, Line::blank());
        assert(line_views(lines@) =~= seq![popup_head(self@, seconds as nat), blank_line()]);
        let body = task_lines(self.task.as_str(), inner);
        append_lines(&mut lines, body);
        push_line(&mut lines, Line::blank());
        push_line(&mut lines, Line::styled("  esc to close", Style::new().fg(Color::DarkGray)));
        lines
    }

    /// The popup on a screen: where it stands and what it holds; none where there is no room.
    pub fn detail(&self, seconds: u64, area: Rect) -> (r: Option<(Rect, Vec<Line>)>)
        requires
            on_screen(area),
        ensures
            match r {
                Some((popup, lines)) => {
                    let width = popup_width(area.width);
                    &&& width >= MIN_WIDTH
                    &&& line_views(lines@) == popup_lines(
                        self@,
                        seconds as nat,
                        (width - 4) as nat,
                    )
                    &&& popup == popup_area(area, lines@.len())
                },
                None => popup_width(area.width) < MIN_WIDTH,
            },
    {
        let margin: u16 = if area.width > 6 {
            area.width - 6
        } else {
            0
        };
        let width: u16 = if margin < 76 {
            margin
        } else {
            76
        };
        if width < MIN_WIDTH {
            return None;
        }
        let lines = self.popup_lines(seconds, (width - 4) as usize);
        let n: usize = lines.len();
        let height: u16 = if n >= area.height as usize || n + 2 >= area.height as usize {
            area.height
        } else {
            (n + 2) as u16
        };
        let popup = Rect {
            x: area.x + (area.width - width) / 2,
            y: area.y + (area.height - height) / 3,
            width,
            height,
        };
        Some((popup, lines))
    }
}

/// The mark of a row is one character.
proof fn lemma_mark_is_one(status: Option<Seq<char>>)
    ensures
        box_of(status).0.len() == 1,
{
    reveal_strlit("☐");
    reveal_strlit("☑");
    reveal_strlit("☒");
}

/// One paragraph of a task, each of its lines indented.
pub open spec fn task_paragraph(paragraph: Seq<char>, inner: nat) -> Seq<LineView> {
    if paragraph.len() == 0 {
        seq![blank_line()]
    } else {
        word_wrapped(paragraph, inner).map_values(
            |c: Seq<char>| styled_line("  "@ + c, plain()),
        )
    }
}

/// The paragraphs of a task.
pub open spec fn task_paragraphs(paragraphs: Seq<Seq<char>>, inner: nat) -> Seq<LineView>
    decreases paragraphs.len(),
{
    if paragraphs.len() == 0 {
        Seq::empty()
    } else {
        task_paragraphs(paragraphs.drop_last(), inner) + task_paragraph(paragraphs.last(), inner)
    }
}

/// The first line of the popup.
pub open spec fn popup_head(agent: SubagentView, seconds: nat) -> LineView {
    let state = match agent.status {
        Some(status) => status,
        None => "running"@,
    };
    line_of(
        seq![
            styled("  "@ + agent.id + " "@, bolded(plain())),
            styled(
                "· "@ + state + " · ⇣"@ + tokens_shown(agent.input_tokens) + " · "@
                    + duration_shown(seconds),
                colored(Color::DarkGray),
            ),
        ],
    )
}

/// The lines of the popup: which subagent it is and how it is doing, its whole task, and how to
/// close it.
pub open spec fn popup_lines(agent: SubagentView, seconds: nat, inner: nat) -> Seq<LineView> {
    (seq![popup_head(agent, seconds), blank_line()] + task_paragraphs(
        lines_of(agent.task),
        inner,
    )).push(blank_line()).push(styled_line("  esc to close"@, colored(Color::DarkGray)))
}

/// How wide the popup is on a screen.
pub open spec fn popup_width(area_width: u16) -> int {
    let margin = if area_width > 6 {
        area_width - 6
    } else {
        0
    };
    if margin < 76 {
        margin
    } else {
        76
    }
}

/// Where a popup of `lines` lines stands: in the middle, a third of the way down.
pub open spec fn popup_area(area: Rect, lines: nat) -> Rect {
    let width = popup_width(area.width);
    let height = if lines + 2 < area.height {
        lines + 2
    } else {
        area.height as nat
    };
    Rect {
        x: (area.x + (area.width - width) / 2) as u16,
        y: (area.y + (area.height - height) / 3) as u16,
        width: width as u16,
        height: height as u16,
    }
}

/// The paragraphs of a task.
fn task_lines(task: &str, inner: usize) -> (r: Vec<Line>)
    ensures
        line_views(r@) == task_paragraphs(lines_of(task@), inner as nat),
{
    let paragraphs = text::lines(task);
    let ghost all = texts(paragraphs@);
    let mut lines: Vec<Line> = Vec::new();
    let mut i: usize = 0;
    assert(line_views(lines@) =~= task_paragraphs(all.take(0), inner as nat));
    while i < paragraphs.len()
        invariant
            i <= paragraphs.len(),
            all == texts(paragraphs@),
            line_views(lines@) == task_paragraphs(all.take(i as int), inner as nat),
        decreases paragraphs.len() - i,
    {
        let ghost before = line_views(lines@);
        assert(all.take(i as int + 1).drop_last() =~= all.take(i as int));
        assert(all[i as int] == paragraphs@[i as int]@);
        let paragraph = paragraphs[i].as_str();
        if paragraph.unicode_len() == 0 {
            push_line(&mut lines, Line::blank());
            assert(line_views(lines@) =~= before + seq![blank_line()]);
        } else {
            let chunks = wrap(paragraph, inner);
            let ghost pieces = word_wrapped(paragraph@, inner as nat);
            let ghost more = task_paragraph(paragraph@, inner as nat);
            let mut k: usize = 0;
            assert(before + more.take(0) =~= before);
            while k < chunks.len()
                invariant
                    k <= chunks.len(),
                    texts(chunks@) == pieces,
                    more == pieces.map_values(|c: Seq<char>| styled_line("  "@ + c, plain())),
                    line_views(lines@) == before + more.take(k as int),
                decreases chunks.len() - k,
            {
                assert(pieces[k as int] == chunks@[k as int]@);
                let line = text::concat("  ", chunks[k].as_str());
                push_line(&mut lines, Line::styled(line.as_str(), Style::new()));
                assert(before + more.take(k as int + 1) =~= (before + more.take(k as int)).push(
                    more[k as int],
                ));
                k += 1;
            }
            assert(more.take(k as int) =~= more);
        }
        i += 1;
    }
    assert(all.take(i as int) =~= all);
    lines
}

// Laws.

/// Filling lines keeps every word.
proof fn lemma_filling(words: Seq<Seq<char>>, width: nat)
    requires
        forall|i: int| 0 <= i < words.len() ==> (#[trigger] words[i]).len() > 0,
    ensures
        text::seen(filling(words, width).lines.flatten() + filling(words, width).current)
            == text::seen(words.flatten()),
        words.len() > 0 ==> filling(words, width).current.len() > 0,
        forall|i: int|
            0 <= i < filling(words, width).lines.len() ==> {
                let line = #[trigger] filling(words, width).lines[i];
                line.len() > 0 && (line.len() <= width || words.contains(line))
            },
        filling(words, width).current.len() <= width || words.contains(
            filling(words, width).current,
        ),
    decreases words.len(),
{
    reveal_strlit(" ");
    if words.len() == 0 {
        assert(filling(words, width).lines.flatten() + filling(words, width).current
            =~= words.flatten());
    } else {
        let init = words.drop_last();
        let word = words[words.len() - 1];
        assert forall|i: int| 0 <= i < init.len() implies (#[trigger] init[i]).len() > 0 by {
            assert(init[i] == words[i]);
        }
        lemma_filling(init, width);
        let before = filling(init, width);
        let next = filling(words, width);
        init.lemma_flatten_push(word);
        assert(init.push(word) =~= words);
        text::lemma_seen_add(init.flatten(), word);
        assert forall|line: Seq<char>| init.contains(line) implies words.contains(line) by {
            let k = init.index_of(line);
            assert(words[k] == line);
        }
        assert(words[words.len() - 1] == word);
        let done = before.lines.flatten();
        if before.current.len() == 0 {
            assert(done + before.current + word =~= done + word);
            text::lemma_seen_add(done + before.current, word);
        } else if before.current.len() + 1 + word.len() > width {
            before.lines.lemma_flatten_push(before.current);
            text::lemma_seen_add(done + before.current, word);
            assert forall|i: int| 0 <= i < next.lines.len() implies ({
                let line = #[trigger] next.lines[i];
                line.len() > 0 && (line.len() <= width || words.contains(line))
            }) by {
                if i < before.lines.len() {
                    assert(next.lines[i] == before.lines[i]);
                }
            }
        } else {
            assert(" "@ =~= seq![' ']);
            assert(done + (before.current + " "@ + word) =~= (done + before.current).push(' ')
                + word);
            text::lemma_seen_add((done + before.current).push(' '), word);
            text::lemma_seen_push(done + before.current, ' ');
        }
    }
}

/// Breaking a text on its white space loses nothing that can be seen of it, and leaves no line that
/// is too long but for a word that is itself.
pub proof fn breaking_keeps_what_is_seen(s: Seq<char>, width: nat)
    requires
        width > 0,
    ensures
        text::seen(word_wrapped(s, width).flatten()) == text::seen(s),
        forall|i: int|
            0 <= i < word_wrapped(s, width).len() ==> {
                let line = #[trigger] word_wrapped(s, width)[i];
                line.len() > 0 && (line.len() <= width || words_of(s).contains(line))
            },
{
    let words = words_of(s);
    let state = filling(words, width);
    text::words_are_all_that_is_seen(s);
    lemma_filling(words, width);
    text::lemma_seen_again(s);
    let lines = word_wrapped(s, width);
    if state.current.len() > 0 {
        state.lines.lemma_flatten_push(state.current);
        assert forall|i: int| 0 <= i < lines.len() implies ({
            let line = #[trigger] lines[i];
            line.len() > 0 && (line.len() <= width || words.contains(line))
        }) by {
            if i < state.lines.len() {
                assert(lines[i] == state.lines[i]);
            }
        }
    } else {
        assert(state.lines.flatten() + state.current =~= state.lines.flatten());
    }
}

/// A task is shown paragraph by paragraph, in order, and a paragraph indented line by line, with all
/// of it that can be seen.
pub proof fn all_of_a_task_is_shown(paragraphs: Seq<Seq<char>>, inner: nat)
    requires
        inner > 0,
    ensures
        task_paragraphs(paragraphs, inner) == paragraphs.map_values(
            |p: Seq<char>| task_paragraph(p, inner),
        ).flatten(),
        forall|k: int, i: int|
            0 <= k < paragraphs.len() && paragraphs[k].len() > 0 && 0 <= i < task_paragraph(
                paragraphs[k],
                inner,
            ).len() ==> (#[trigger] task_paragraph(paragraphs[k], inner)[i]) == styled_line(
                seq![' ', ' '] + word_wrapped(paragraphs[k], inner)[i],
                plain(),
            ),
        forall|k: int|
            0 <= k < paragraphs.len() && paragraphs[k].len() > 0 ==> (#[trigger] task_paragraph(
                paragraphs[k],
                inner,
            )).len() == word_wrapped(paragraphs[k], inner).len(),
    decreases paragraphs.len(),
{
    reveal_strlit("  ");
    assert("  "@ =~= seq![' ', ' ']);
    let f = |p: Seq<char>| task_paragraph(p, inner);
    if paragraphs.len() == 0 {
        assert(paragraphs.map_values(f) =~= Seq::empty());
    } else {
        let init = paragraphs.drop_last();
        all_of_a_task_is_shown(init, inner);
        assert(paragraphs.map_values(f) =~= init.map_values(f).push(f(paragraphs.last())));
        init.map_values(f).lemma_flatten_push(f(paragraphs.last()));
    }
}

/// A row shows the whole title and the whole cost where there is room for both, and then ends with
/// the cost at the edge; where there is not, only the title is cut.
pub proof fn a_row_keeps_its_cost(agent: SubagentView, seconds: nat, width: u16)
    ensures
        ({
            let spans = row_line(agent, seconds, width).spans;
            let right = row_right(agent, seconds);
            let title = titled(agent.task);
            &&& spans.len() == 3
            &&& spans[2].content == right + seq![' ']
            &&& forall|i: int| 0 <= i < spans[1].content.len() ==> #[trigger] spans[1].content[i]
                == ' '
            &&& width > title.len() + 4 + right.len() + 1 ==> {
                &&& spans[0].content == seq![' '] + box_of(agent.status).0 + seq![' '] + title
                    + seq![' ']
                &&& spans[0].content.len() + spans[1].content.len() + spans[2].content.len()
                    == width
            }
        }),
{
    reveal_strlit(" ");
    reveal_strlit("☐");
    reveal_strlit("☑");
    reveal_strlit("☒");
    assert(" "@ =~= seq![' ']);
    assert(row_left(agent) =~= seq![' '] + box_of(agent.status).0 + seq![' '] + titled(agent.task)
        + seq![' ']);
}

/// Only a subagent that completed is ticked, and one that is still running is neither ticked nor
/// crossed.
pub proof fn a_box_is_ticked_on_completion(status: Option<Seq<char>>)
    ensures
        box_of(status).0 == "☑"@ <==> status == Some("completed"@),
        box_of(status).0 == "☐"@ <==> status is None,
{
    reveal_strlit("☐");
    reveal_strlit("☑");
    reveal_strlit("☒");
    assert("☐"@[0] == '☐' && "☑"@[0] == '☑' && "☒"@[0] == '☒');
}

/// A popup stands on the screen.
pub proof fn a_popup_stays_on_the_screen(area: Rect, lines: nat)
    requires
        on_screen(area),
    ensures
        ({
            let place = popup_area(area, lines);
            &&& area.x <= place.x && place.x + place.width <= area.x + area.width
            &&& area.y <= place.y && place.y + place.height <= area.y + area.height
            &&& lines + 2 <= area.height ==> place.height == lines + 2
            &&& place.width <= 76
        }),
{
}

} // verus!

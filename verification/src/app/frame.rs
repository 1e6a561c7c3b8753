//! Drawing the conversation, the subagents, the prompt and the status bar.

use vstd::prelude::*;
use crate::app::{live_flash, row_texts, since, subagent_at, subagent_views, App, AppView, Turn};
use crate::draw::input::{all_rows, cursor_place, first_row, layout};
use crate::draw::subagents::{row_line, MAX_ROWS, MIN_WIDTH};
use crate::draw::status::{status_line, Status};
use crate::draw::transcript::{as_set, drawn, places, render, RenderedView};
use crate::scroll::Scrollback;
use crate::selection::{highlighted, with_rows, Selection, SelectionView};
use crate::style::{
    line_of, line_views, on_screen, push_line, raw, span_views, Line, LineView, Rect, Span, SpanView,
};
use crate::text;
use crate::text::texts;

verus! {

/// The lines that a view of `height` lines shows from `top` on.
pub open spec fn window(lines: Seq<LineView>, top: int, height: int) -> Seq<LineView> {
    lines.subrange(
        top,
        if top + height < lines.len() {
            top + height
        } else {
            lines.len() as int
        },
    )
}

/// What some runs read.
pub open spec fn runs_text(runs: Seq<SpanView>) -> Seq<char>
    decreases runs.len(),
{
    if runs.len() == 0 {
        Seq::empty()
    } else {
        runs_text(runs.drop_last()) + runs.last().content
    }
}

/// What some lines read.
pub open spec fn plain_lines(lines: Seq<LineView>) -> Seq<Seq<char>> {
    lines.map_values(|l: LineView| runs_text(l.spans))
}

/// Where the headers that a view shows are drawn, the view beginning at the row `y`.
pub open spec fn headers_shown(
    toggles: Seq<(int, int)>,
    top: int,
    height: int,
    y: int,
) -> Seq<(u16, usize)>
    decreases toggles.len(),
{
    if toggles.len() == 0 {
        Seq::empty()
    } else {
        let before = headers_shown(toggles.drop_last(), top, height, y);
        let (line, cell) = toggles.last();
        if top <= line < top + height {
            before.push(((y + (line - top)) as u16, cell as usize))
        } else {
            before
        }
    }
}

/// Some lines, drawn from the row `top` on, with what is selected in them marked.
pub open spec fn shaded(selection: SelectionView, top: int, lines: Seq<LineView>) -> Seq<
    LineView,
> {
    Seq::new(
        lines.len(),
        |i: int| highlighted(selection, (top + i) as u16, lines[i]),
    )
}

/// Some rows as lines.
pub open spec fn raw_lines(rows: Seq<Seq<char>>) -> Seq<LineView> {
    rows.map_values(|row: Seq<char>| line_of(seq![raw(row)]))
}

/// The view of a conversation of this many lines.
pub open spec fn measured(scroll: Scrollback, total: int, height: int) -> Scrollback {
    Scrollback { total: total as usize, height: height as usize, ..scroll }
}

impl AppView {
    /// All that the conversation is drawn as.
    pub open spec fn drawn_conversation(self, width: u16) -> RenderedView {
        drawn(self.transcript.cells, width as nat, as_set(self.expanded))
    }

    /// With a frame drawn: the view knows how much there is, a click where it lands, and a drag
    /// what it cuts from.
    pub open spec fn framed(self, area: Rect) -> AppView {
        let all = self.drawn_conversation(area.width);
        let scroll = measured(self.scroll, all.lines.len() as int, area.height as int);
        let shown = window(all.lines, scroll.top(), area.height as int);
        AppView {
            scroll,
            toggles: headers_shown(
                all.toggles,
                scroll.top(),
                area.height as int,
                area.y as int,
            ),
            selection: SelectionView {
                rows: with_rows(Map::empty(), area.y, plain_lines(shown)),
                ..self.selection
            },
            ..self
        }
    }
}

impl AppView {
    /// How wide a row of a box is.
    pub open spec fn row_width(inner: Rect) -> nat {
        if inner.width > 1 {
            inner.width as nat
        } else {
            1
        }
    }

    /// The rows of the prompt that a box shows.
    pub open spec fn prompt_rows(self, inner: Rect) -> Seq<Seq<char>> {
        let width = Self::row_width(inner);
        let (row, column) = cursor_place(self.input, width);
        crate::draw::input::window(
            all_rows(self.input.lines, width),
            first_row(row, inner.height as nat),
            inner.height as nat,
        )
    }

    /// With the prompt drawn.
    pub open spec fn composed(self, inner: Rect) -> AppView {
        AppView {
            selection: SelectionView {
                rows: with_rows(self.selection.rows, inner.y, self.prompt_rows(inner)),
                ..self.selection
            },
            ..self
        }
    }

    /// Where the cursor stands on the screen, where it is shown.
    pub open spec fn caret(self, inner: Rect) -> Option<(u16, u16)> {
        let (row, column) = cursor_place(self.input, Self::row_width(inner));
        let below = row - first_row(row, inner.height as nat);
        if self.turn != Turn::AwaitingPermission && column < inner.width && below < inner.height {
            Some(((inner.x + column) as u16, (inner.y + below) as u16))
        } else {
            None
        }
    }
}

impl AppView {
    /// How many subagents a part of the screen shows: none where a row has no room for a title
    /// worth reading.
    pub open spec fn subagents_shown(self, area: Rect) -> nat {
        if area.height == 0 || area.width < MIN_WIDTH {
            0
        } else if self.subagents.len() < MAX_ROWS {
            self.subagents.len()
        } else {
            MAX_ROWS as nat
        }
    }

    /// How long a subagent has been known, in seconds.
    pub open spec fn seconds_known(self, id: Seq<char>) -> nat {
        match subagent_at(self.subagents, id, 0) {
            Some(i) => since(self.clock, self.subagent_since[i]) as nat / 1000,
            None => 0,
        }
    }

    /// With the rows of the subagents drawn, so that a click knows where it lands.
    pub open spec fn delegating(self, area: Rect) -> AppView {
        AppView {
            subagent_rows: Seq::new(
                self.subagents_shown(area),
                |i: int| ((area.y + i) as u16, self.subagents[i].id),
            ),
            ..self
        }
    }

    /// The rows of the subagents.
    pub open spec fn delegated_lines(self, area: Rect) -> Seq<LineView> {
        Seq::new(
            self.subagents_shown(area),
            |i: int|
                row_line(
                    self.subagents[i],
                    self.seconds_known(self.subagents[i].id),
                    area.width,
                ),
        )
    }
}

/// What a line reads.
pub fn plain_line(line: &Line) -> (r: String)
    ensures
        r@ == runs_text(line@.spans),
{
    let ghost runs = span_views(line.spans@);
    let mut r = String::new();
    let mut i: usize = 0;
    assert(runs.take(0) =~= Seq::empty());
    assert(r@ =~= Seq::<char>::empty());
    while i < line.spans.len()
        invariant
            i <= line.spans.len(),
            runs == span_views(line.spans@),
            r@ == runs_text(runs.take(i as int)),
        decreases line.spans.len() - i,
    {
        assert(runs.take(i as int + 1).drop_last() =~= runs.take(i as int));
        r.append(line.spans[i].content.as_str());
        i += 1;
    }
    assert(runs.take(i as int) =~= runs);
    r
}

/// Marks what is selected in some lines.
fn shade(selection: &Selection, top: u16, lines: Vec<Line>) -> (r: Vec<Line>)
    requires
        top + lines.len() <= u16::MAX,
    ensures
        line_views(r@) == shaded(selection@, top as int, line_views(lines@)),
{
    let ghost all = line_views(lines@);
    let ghost whole = shaded(selection@, top as int, all);
    let mut r: Vec<Line> = Vec::new();
    let mut row: u16 = top;
    assert(line_views(r@) =~= whole.take(0));
    for line in it: lines
        invariant
            all == line_views(it.seq()),
            whole == shaded(selection@, top as int, all),
            top + all.len() <= u16::MAX,
            row == top + it.index(),
            line_views(r@) == whole.take(it.index() as int),
    {
        let ghost at = it.index();
        assert(all[at as int] == it.seq()[at as int]@);
        let marked = selection.highlight(row, line);
        push_line(&mut r, marked);
        row += 1;
        assert(whole.take(at as int + 1) =~= whole.take(at as int).push(whole[at as int]));
    }
    assert(whole.take(all.len() as int) =~= whole);
    r
}

/// Some rows as lines.
fn lines_of_rows(rows: &Vec<String>) -> (r: Vec<Line>)
    ensures
        line_views(r@) == raw_lines(texts(rows@)),
{
    let ghost all = raw_lines(texts(rows@));
    let mut r: Vec<Line> = Vec::new();
    let mut i: usize = 0;
    assert(line_views(r@) =~= all.take(0));
    while i < rows.len()
        invariant
            i <= rows.len(),
            all == raw_lines(texts(rows@)),
            line_views(r@) == all.take(i as int),
        decreases rows.len() - i,
    {
        push_line(&mut r, Line::of_one(Span::raw(rows[i].as_str())));
        i += 1;
        assert(all.take(i as int) =~= all.take(i - 1).push(all[i - 1]));
    }
    assert(all.take(i as int) =~= all);
    r
}

impl App {
    /// Draws the status bar.
    pub fn status_bar(&self) -> (r: Line)
        ensures
            r@ == status_line(
                self@.turn,
                self@.approval,
                self@.mode,
                self@.provider,
                self@.model,
                self@.effort,
                live_flash(self@),
            ),
    {
        let status = Status {
            turn: self.turn(),
            approval: self.approval_policy(),
            mode: self.session_mode(),
            provider: match self.provider() {
                Some(provider) => Some(text::copy(provider)),
                None => None,
            },
            model: text::copy(self.model()),
            effort: self.reasoning_effort(),
            flash: match self.flash() {
                Some(flash) => Some(text::copy(flash)),
                None => None,
            },
        };
        status.line()
    }

    /// Draws the conversation in a part of the screen.
    ///
    /// It is rendered first so its wrapped height is known before the viewport decides what to show;
    /// scrolling anchors to wrapped lines rather than to cells, which is the only way a long tool
    /// result scrolls smoothly.
    pub fn body(&mut self, area: Rect) -> (r: Vec<Line>)
        requires
            on_screen(area),
        ensures
            final(self)@ == old(self)@.framed(area),
            ({
                let all = old(self)@.drawn_conversation(area.width).lines;
                let scroll = measured(old(self)@.scroll, all.len() as int, area.height as int);
                line_views(r@) == shaded(
                    final(self)@.selection,
                    area.y as int,
                    window(all, scroll.top(), area.height as int),
                )
            }),
    {
        let ghost start = self@;
        let whole = render(self.transcript.cells(), area.width, self.expanded());
        let ghost all = whole@;
        let height: usize = area.height as usize;
        assert(all.lines.len() == whole.lines.len());
        self.scroll.measure(whole.lines.len(), height);
        let top: usize = self.scroll.offset();
        let ghost scroll = measured(start.scroll, all.lines.len() as int, height as int);
        assert(self@.scroll == scroll);

        let mut toggles: Vec<(u16, usize)> = Vec::new();
        let mut i: usize = 0;
        assert(all.toggles.take(0) =~= Seq::empty());
        assert(toggles@ =~= Seq::empty());
        while i < whole.toggles.len()
            invariant
                i <= whole.toggles.len(),
                all.toggles == places(whole.toggles@),
                on_screen(area),
                height == area.height,
                toggles@ == headers_shown(
                    all.toggles.take(i as int),
                    top as int,
                    height as int,
                    area.y as int,
                ),
            decreases whole.toggles.len() - i,
        {
            assert(all.toggles.take(i as int + 1).drop_last() =~= all.toggles.take(i as int));
            let (line, cell) = whole.toggles[i];
            assert(all.toggles[i as int] == (line as int, cell as int));
            if line >= top && line - top < height {
                toggles.push((area.y + (line - top) as u16, cell));
            }
            i += 1;
        }
        assert(all.toggles.take(i as int) =~= all.toggles);
        self.set_toggles(toggles);

        let mut lines = whole.lines;
        let mut shown = lines.split_off(top);
        shown.truncate(height);
        let ghost view = window(all.lines, top as int, height as int);
        assert(line_views(shown@) =~= view);
        let mut rows = text::no_texts();
        let mut k: usize = 0;
        assert(texts(rows@) =~= plain_lines(view).take(0));
        while k < shown.len()
            invariant
                k <= shown.len(),
                view == line_views(shown@),
                texts(rows@) == plain_lines(view).take(k as int),
            decreases shown.len() - k,
        {
            let row = plain_line(&shown[k]);
            assert(view[k as int] == shown@[k as int]@);
            text::push_text(&mut rows, row.as_str());
            k += 1;
            assert(plain_lines(view).take(k as int) =~= plain_lines(view).take(k - 1).push(
                plain_lines(view)[k - 1],
            ));
        }
        assert(plain_lines(view).take(k as int) =~= plain_lines(view));
        self.selection.set_rows(area.y, rows);
        shade(&self.selection, area.y, shown)
    }

    /// Draws the rows of the subagents.
    pub fn subagent_lines(&mut self, area: Rect) -> (r: Vec<Line>)
        requires
            old(self)@.valid(),
            area.y + MAX_ROWS <= u16::MAX,
        ensures
            final(self)@ == old(self)@.delegating(area),
            final(self)@.valid(),
            line_views(r@) == old(self)@.delegated_lines(area),
    {
        let ghost start = self@;
        let mut rows: Vec<(u16, String)> = Vec::new();
        let mut lines: Vec<Line> = Vec::new();
        assert(subagent_views(self.subagents@).len() == self.subagents@.len());
        let count: usize = if area.height == 0 || area.width < MIN_WIDTH {
            0
        } else if self.subagents().len() < MAX_ROWS {
            self.subagents().len()
        } else {
            MAX_ROWS
        };
        let ghost all_rows = start.delegating(area).subagent_rows;
        let ghost all_lines = start.delegated_lines(area);
        let mut i: usize = 0;
        assert(row_texts(rows@) =~= all_rows.take(0));
        assert(line_views(lines@) =~= all_lines.take(0));
        while i < count
            invariant
                i <= count <= MAX_ROWS,
                self@ == start,
                start.valid(),
                count == start.subagents_shown(area),
                count <= start.subagents.len(),
                area.y + MAX_ROWS <= u16::MAX,
                all_rows == start.delegating(area).subagent_rows,
                all_lines == start.delegated_lines(area),
                row_texts(rows@) == all_rows.take(i as int),
                line_views(lines@) == all_lines.take(i as int),
            decreases count - i,
        {
            let agents = self.subagents();
            assert(subagent_views(agents@)[i as int] == agents@[i as int]@);
            let millis: u64 = match self.subagent_elapsed(agents[i].id.as_str()) {
                Some(millis) => millis,
                None => 0,
            };
            let line = agents[i].line(millis / 1000, area.width);
            let ghost done = row_texts(rows@);
            rows.push((area.y + i as u16, agents[i].id.clone()));
            push_line(&mut lines, line);
            assert(row_texts(rows@) =~= done.push(all_rows[i as int]));
            assert(all_rows.take(i as int + 1) =~= all_rows.take(i as int).push(all_rows[i as int]));
            assert(all_lines.take(i as int + 1) =~= all_lines.take(i as int).push(
                all_lines[i as int],
            ));
            i += 1;
        }
        assert(all_rows.take(i as int) =~= all_rows);
        assert(all_lines.take(i as int) =~= all_lines);
        self.set_subagent_rows(rows);
        lines
    }

    /// Draws the prompt in a box: its rows, and where the cursor stands.
    ///
    /// A drag is answered against what was drawn, so the selection gets the rows before it is
    /// asked to mark them. There is no cursor while an answer is awaited: the keyboard is
    /// answering the prompt, and a caret in a box that ignores letters is a lie.
    pub fn composer(&mut self, inner: Rect) -> (r: (Vec<Line>, Option<(u16, u16)>))
        requires
            old(self)@.valid(),
            on_screen(inner),
        ensures
            final(self)@ == old(self)@.composed(inner),
            final(self)@.valid(),
            line_views(r.0@) == shaded(
                final(self)@.selection,
                inner.y as int,
                raw_lines(old(self)@.prompt_rows(inner)),
            ),
            r.1 == old(self)@.caret(inner),
    {
        let width: usize = if inner.width > 1 {
            inner.width as usize
        } else {
            1
        };
        let shown = layout(&self.input, width, inner.height as usize);
        let ghost rows = self@.prompt_rows(inner);
        assert(texts(shown.rows@) == rows);
        let (row, column) = shown.cursor;
        let lines = lines_of_rows(&shown.rows);
        assert(line_views(lines@).len() == lines.len());
        assert(raw_lines(rows).len() == rows.len());
        self.selection.add_rows(inner.y, shown.rows);
        let marked = shade(&self.selection, inner.y, lines);
        let caret = if self.turn() != Turn::AwaitingPermission && column < inner.width as usize
            && row < inner.height as usize {
            Some((inner.x + column as u16, inner.y + row as u16))
        } else {
            None
        };
        (marked, caret)
    }
}

/// A view that follows shows the end of the conversation, and as much of it as fits.
pub proof fn following_shows_the_end(scroll: Scrollback, lines: Seq<LineView>, height: u16)
    requires
        scroll.pinned is None,
        lines.len() <= usize::MAX,
    ensures
        ({
            let view = measured(scroll, lines.len() as int, height as int);
            let shown = window(lines, view.top(), height as int);
            &&& shown.len() == if lines.len() < height {
                lines.len()
            } else {
                height as nat
            }
            &&& shown == lines.skip(lines.len() - shown.len())
        }),
{
    let view = measured(scroll, lines.len() as int, height as int);
    let shown = window(lines, view.top(), height as int);
    assert(shown =~= lines.skip(lines.len() - shown.len()));
}

/// A header that is on screen is known by the row it is drawn on, and one that is not is not known:
/// a click lands on what a person sees.
pub proof fn headers_are_known_where_they_are_drawn(
    toggles: Seq<(int, int)>,
    top: int,
    height: int,
    y: int,
)
    ensures
        headers_shown(toggles, top, height, y) == toggles.filter(
            |t: (int, int)| top <= t.0 && t.0 < top + height,
        ).map_values(|t: (int, int)| ((y + (t.0 - top)) as u16, t.1 as usize)),
    decreases toggles.len(),
{
    let keep = |t: (int, int)| top <= t.0 && t.0 < top + height;
    let place = |t: (int, int)| ((y + (t.0 - top)) as u16, t.1 as usize);
    reveal(Seq::filter);
    if toggles.len() > 0 {
        let init = toggles.drop_last();
        headers_are_known_where_they_are_drawn(init, top, height, y);
        assert(init.filter(keep).push(toggles.last()).map_values(place) =~= init.filter(
            keep,
        ).map_values(place).push(place(toggles.last())));
    }
    assert(headers_shown(toggles, top, height, y) =~= toggles.filter(keep).map_values(place));
}

/// A row reads what its runs read, one after the other.
pub proof fn a_row_reads_what_its_runs_read(runs: Seq<SpanView>)
    ensures
        runs_text(runs) == runs.map_values(|run: SpanView| run.content).flatten(),
    decreases runs.len(),
{
    let f = |run: SpanView| run.content;
    if runs.len() == 0 {
        assert(runs.map_values(f) =~= Seq::empty());
    } else {
        let init = runs.drop_last();
        a_row_reads_what_its_runs_read(init);
        assert(runs.map_values(f) =~= init.map_values(f).push(f(runs.last())));
        init.map_values(f).lemma_flatten_push(f(runs.last()));
    }
}

/// A frame shows the conversation from the line the view is at, line for line and as much as fits,
/// and changes nothing that was said or typed.
pub proof fn a_frame_shows_the_conversation(lines: Seq<LineView>, top: int, height: int)
    requires
        0 <= top <= lines.len(),
        0 <= height,
    ensures
        window(lines, top, height).len() == (if lines.len() - top < height {
            lines.len() - top
        } else {
            height
        }),
        forall|i: int|
            0 <= i < window(lines, top, height).len() ==> #[trigger] window(lines, top, height)[i]
                == lines[top + i],
{
}

/// A subagent has been known for as long as the clock says, and a click on its row finds it.
pub proof fn a_subagent_is_found_on_its_row(app: AppView, area: Rect, i: int)
    requires
        0 <= i < app.subagents_shown(area),
        area.y + app.subagents_shown(area) <= u16::MAX,
    ensures
        app.delegating(area).subagent_rows.len() == app.subagents_shown(area),
        app.delegating(area).subagent_rows[i].0 == area.y + i,
        app.delegating(area).subagent_rows[i].1 == app.subagents[i].id,
        app.delegated_lines(area).len() == app.subagents_shown(area),
        app.delegating(area).transcript == app.transcript,
{
}

} // verus!

//! Selecting text with the mouse.
//!
//! Capturing the mouse is what makes a click able to open a tool call, and it is also what takes
//! drag-select away from the terminal. So the drag is answered here, over what the frame actually
//! drew, and the release puts it on the clipboard.
//!
//! Rows are keyed by absolute screen row, because more than one widget hands its text here. A
//! mouse column arrives in terminal cells, but a double-width glyph is one character and two
//! cells: every column is turned into a character index first.

use vstd::prelude::*;
use std::collections::BTreeMap;
use crate::cells;
use crate::cells::char_cells;
use crate::style::{push_span, span_views, Line, LineView, Span, SpanView, Style};
use crate::text;
use crate::text::{joined, texts, trimmed_end};

verus! {

/// What the mouse is doing to the transcript right now.
#[derive(Debug, PartialEq, Eq)]
pub struct Selection {
    press: Option<(u16, u16)>,
    dragged: bool,
    range: Option<((u16, u16), (u16, u16))>,
    rows: BTreeMap<u16, String>,
}

/// What a [`Selection`] knows. A point is a row and a column in screen cells.
pub struct SelectionView {
    /// Where the left button went down, until it comes back up.
    pub press: Option<(u16, u16)>,
    /// Set once the pointer has left the cell it was pressed in: what tells a click apart from a
    /// drag, and so a toggle apart from a selection.
    pub dragged: bool,
    /// The selected span, anchor first. It outlives the drag so a reader can see what they
    /// copied.
    pub range: Option<((u16, u16), (u16, u16))>,
    /// The plain text of each drawn row.
    pub rows: Map<u16, Seq<char>>,
}

impl View for Selection {
    type V = SelectionView;

    closed spec fn view(&self) -> SelectionView {
        SelectionView {
            press: self.press,
            dragged: self.dragged,
            range: self.range,
            rows: self.rows@.map_values(|s: String| s@),
        }
    }
}

/// The row `offset` below `top`, or the last one there is.
pub open spec fn row_at(top: u16, offset: int) -> u16 {
    if top + offset > u16::MAX {
        u16::MAX
    } else {
        (top + offset) as u16
    }
}

/// Some rows with more of them, drawn from `top` on. There are no rows beyond the last number a
/// row can have.
pub open spec fn with_rows(rows: Map<u16, Seq<char>>, top: u16, added: Seq<Seq<char>>) -> Map<
    u16,
    Seq<char>,
>
    decreases added.len(),
{
    if added.len() == 0 {
        rows
    } else {
        let before = with_rows(rows, top, added.drop_last());
        if added.len() - 1 > u16::MAX {
            before
        } else {
            before.insert(row_at(top, added.len() - 1), added.last())
        }
    }
}

/// How many cells a character takes at least: one.
pub open spec fn taken(c: char) -> nat {
    match char_cells(c) {
        Some(n) => if n > 1 {
            n as nat
        } else {
            1
        },
        None => 1,
    }
}

/// How many cells some characters take.
pub open spec fn all_taken(s: Seq<char>) -> nat
    decreases s.len(),
{
    if s.len() == 0 {
        0
    } else {
        all_taken(s.drop_last()) + taken(s.last())
    }
}

/// The first character from `i` on that reaches beyond a cell, or the end of the text.
pub open spec fn reaching(s: Seq<char>, cell: int, i: int) -> int
    decreases s.len() - i,
{
    if i < 0 || i >= s.len() {
        s.len() as int
    } else if cell < all_taken(s.take(i + 1)) {
        i
    } else {
        reaching(s, cell, i + 1)
    }
}

/// The character that occupies a cell, or the end of the text. Either cell of a wide glyph is its
/// one character.
pub open spec fn char_at(s: Seq<char>, cell: int) -> int {
    reaching(s, cell, 0)
}

/// Whether one point comes before another in reading order, or is the same.
pub open spec fn precedes(a: (u16, u16), b: (u16, u16)) -> bool {
    a.0 < b.0 || (a.0 == b.0 && a.1 <= b.1)
}

/// A range in reading order.
pub open spec fn ordered(range: ((u16, u16), (u16, u16))) -> ((u16, u16), (u16, u16)) {
    if precedes(range.0, range.1) {
        range
    } else {
        (range.1, range.0)
    }
}

/// What a range, in reading order, selects of the row `row` that reads `s`: from one character up
/// to but not including another. The column it ends in is selected too, which is what the
/// highlight under the pointer says.
pub open spec fn cut_of(start: (u16, u16), end: (u16, u16), row: int, s: Seq<char>) -> (int, int) {
    let from = if row == start.0 {
        char_at(s, start.1 as int)
    } else {
        0
    };
    let to = if row == end.0 && char_at(s, end.1 as int) < s.len() {
        char_at(s, end.1 as int) + 1
    } else {
        s.len() as int
    };
    (from, to)
}

/// What a range selects of the rows from `row` on, in reading order.
pub open spec fn spans_from(
    rows: Map<u16, Seq<char>>,
    start: (u16, u16),
    end: (u16, u16),
    row: int,
) -> Seq<(u16, int, int)>
    decreases end.0 - row + 1,
{
    if row > end.0 {
        Seq::empty()
    } else {
        let later = spans_from(rows, start, end, row + 1);
        if 0 <= row && rows.contains_key(row as u16) {
            let (from, to) = cut_of(start, end, row, rows[row as u16]);
            if from < to {
                seq![(row as u16, from, to)] + later
            } else {
                later
            }
        } else {
            later
        }
    }
}

impl SelectionView {
    /// The selection in reading order: the row, and from which character to which.
    pub open spec fn spans(self) -> Seq<(u16, int, int)> {
        match self.range {
            None => Seq::empty(),
            Some(range) => {
                let (start, end) = ordered(range);
                spans_from(self.rows, start, end, start.0 as int)
            },
        }
    }

    /// The selected text, row by row, without the blanks at the end of a row.
    pub open spec fn text(self) -> Seq<char> {
        trimmed_end(joined(cuts(self.rows, self.spans()), "\n"@))
    }

    /// Nothing selected.
    pub open spec fn cleared(self) -> SelectionView {
        SelectionView { press: None, dragged: false, range: None, ..self }
    }

    /// With the button down.
    pub open spec fn pressed(self, at: (u16, u16)) -> SelectionView {
        SelectionView { press: Some(at), dragged: false, range: None, ..self }
    }

    /// With the pointer moved while the button is down.
    pub open spec fn dragged_to(self, at: (u16, u16)) -> SelectionView {
        match self.press {
            None => self,
            Some(anchor) => if at != anchor || self.dragged {
                SelectionView { dragged: true, range: Some((anchor, at)), ..self }
            } else {
                self
            },
        }
    }

    /// With the button up again.
    pub open spec fn released(self) -> SelectionView {
        if self.dragged && self.text().len() > 0 {
            SelectionView { press: None, dragged: false, ..self }
        } else {
            self.cleared()
        }
    }
}

/// What some spans cut out of the rows, without the blanks at the end of a row.
pub open spec fn cuts(rows: Map<u16, Seq<char>>, spans: Seq<(u16, int, int)>) -> Seq<Seq<char>> {
    spans.map_values(
        |span: (u16, int, int)| trimmed_end(rows[span.0].subrange(span.1, span.2)),
    )
}

/// Each span lies within the row it is of.
proof fn lemma_spans(
    rows: Map<u16, Seq<char>>,
    start: (u16, u16),
    end: (u16, u16),
    row: int,
)
    ensures
        forall|i: int|
            0 <= i < spans_from(rows, start, end, row).len() ==> {
                let span = #[trigger] spans_from(rows, start, end, row)[i];
                &&& rows.contains_key(span.0)
                &&& row <= span.0 <= end.0
                &&& 0 <= span.1 < span.2 <= rows[span.0].len()
            },
    decreases end.0 - row + 1,
{
    if row <= end.0 {
        lemma_spans(rows, start, end, row + 1);
        if 0 <= row && rows.contains_key(row as u16) {
            lemma_reaching(rows[row as u16], start.1 as int, 0);
            lemma_reaching(rows[row as u16], end.1 as int, 0);
        }
        let all = spans_from(rows, start, end, row);
        let later = spans_from(rows, start, end, row + 1);
        assert forall|i: int| 0 <= i < all.len() implies {
            let span = #[trigger] all[i];
            &&& rows.contains_key(span.0)
            &&& row <= span.0 <= end.0
            &&& 0 <= span.1 < span.2 <= rows[span.0].len()
        } by {
            if all.len() == later.len() {
                assert(all[i] == later[i]);
            } else if i > 0 {
                assert(all[i] == later[i - 1]);
            }
        }
    }
}

/// What reaches beyond a cell is a character of the text, or its end.
proof fn lemma_reaching(s: Seq<char>, cell: int, i: int)
    requires
        0 <= i <= s.len(),
    ensures
        i <= reaching(s, cell, i) <= s.len(),
    decreases s.len() - i,
{
    if i < s.len() && !(cell < all_taken(s.take(i + 1))) {
        lemma_reaching(s, cell, i + 1);
    }
}

/// The character that occupies a cell of a text, or the end of the text.
pub fn char_at_cell(s: &Vec<char>, cell: usize) -> (r: usize)
    ensures
        r == char_at(s@, cell as int),
        r <= s.len(),
{
    let mut width: usize = 0;
    let mut i: usize = 0;
    assert(s@.take(0) =~= Seq::empty());
    while i < s.len()
        invariant
            i <= s.len(),
            width <= cell,
            width == all_taken(s@.take(i as int)),
            char_at(s@, cell as int) == reaching(s@, cell as int, i as int),
        decreases s.len() - i,
    {
        assert(s@.take(i as int + 1).drop_last() =~= s@.take(i as int));
        let own: usize = match cells::char_width(s[i]) {
            Some(n) => if n > 1 {
                n
            } else {
                1
            },
            None => 1,
        };
        if own > cell - width {
            return i;
        }
        width += own;
        i += 1;
    }
    s.len()
}

/// Whether one point comes before another in reading order, or is the same.
fn is_before(a: (u16, u16), b: (u16, u16)) -> (r: bool)
    ensures
        r == precedes(a, b),
{
    a.0 < b.0 || (a.0 == b.0 && a.1 <= b.1)
}

/// What some spans say.
pub open spec fn span_ints(spans: Seq<(u16, usize, usize)>) -> Seq<(u16, int, int)> {
    spans.map_values(|s: (u16, usize, usize)| (s.0, s.1 as int, s.2 as int))
}

impl Default for Selection {
    fn default() -> (r: Selection)
        ensures
            r@ == (SelectionView {
                press: None,
                dragged: false,
                range: None,
                rows: Map::empty(),
            }),
    {
        let r = Selection { press: None, dragged: false, range: None, rows: BTreeMap::new() };
        assert(r@.rows =~= Map::empty());
        r
    }
}

impl Selection {
    /// Told by a frame what the transcript body holds, so a drag has something to cut from.
    /// Replaces every row handed in by a previous frame.
    pub fn set_rows(&mut self, top: u16, rows: Vec<String>)
        ensures
            final(self)@ == (SelectionView {
                rows: with_rows(Map::empty(), top, texts(rows@)),
                ..old(self)@
            }),
    {
        self.rows.clear();
        assert(self@.rows =~= Map::empty());
        self.add_rows(top, rows);
    }

    /// Told by a frame what another area holds, alongside whatever was contributed already.
    pub fn add_rows(&mut self, top: u16, rows: Vec<String>)
        ensures
            final(self)@ == (SelectionView {
                rows: with_rows(old(self)@.rows, top, texts(rows@)),
                ..old(self)@
            }),
    {
        broadcast use vstd::std_specs::btree::group_btree_axioms;

        let ghost all = texts(rows@);
        let ghost start = self@.rows;
        let mut i: usize = 0;
        assert(all.take(0) =~= Seq::empty());
        while i < rows.len()
            invariant
                i <= rows.len(),
                all == texts(rows@),
                self@.rows == with_rows(start, top, all.take(i as int)),
                self.press == old(self).press,
                self.dragged == old(self).dragged,
                self.range == old(self).range,
            decreases rows.len() - i,
        {
            assert(all.take(i as int + 1).drop_last() =~= all.take(i as int));
            assert(all[i as int] == rows@[i as int]@);
            let ghost before = self.rows@;
            if i <= 65535 {
                let offset: u16 = i as u16;
                let row: u16 = if offset > 65535 - top {
                    65535
                } else {
                    top + offset
                };
                self.rows.insert(row, rows[i].clone());
                assert(self@.rows =~= before.map_values(|s: String| s@).insert(
                    row,
                    all[i as int],
                ));
            }
            i += 1;
        }
        assert(all.take(i as int) =~= all);
    }

    /// The button went down.
    pub fn press(&mut self, at: (u16, u16))
        ensures
            final(self)@ == old(self)@.pressed(at),
    {
        self.press = Some(at);
        self.dragged = false;
        self.range = None;
    }

    /// Extends the drag. Says whether anything is selected yet.
    pub fn drag_to(&mut self, at: (u16, u16)) -> (r: bool)
        ensures
            final(self)@ == old(self)@.dragged_to(at),
            r == (old(self)@.press is Some && final(self)@.dragged),
    {
        let Some(anchor) = self.press else {
            return false;
        };
        if at.0 != anchor.0 || at.1 != anchor.1 {
            self.dragged = true;
        }
        if self.dragged {
            self.range = Some((anchor, at));
        }
        self.dragged
    }

    /// Finishes the gesture: the text when it was a drag with something in it, nothing when it was
    /// a click, which belongs to whatever is under it.
    pub fn release(&mut self) -> (r: Option<String>)
        ensures
            final(self)@ == old(self)@.released(),
            text::opt(r) == if old(self)@.dragged && old(self)@.text().len() > 0 {
                Some(old(self)@.text())
            } else {
                None
            },
    {
        if !self.dragged {
            self.clear();
            return None;
        }
        let selected = self.text();
        if selected.as_str().unicode_len() == 0 {
            self.clear();
            return None;
        }
        self.press = None;
        self.dragged = false;
        Some(selected)
    }

    /// Drops the selection, keeping what was drawn.
    pub fn clear(&mut self)
        ensures
            final(self)@ == old(self)@.cleared(),
    {
        self.press = None;
        self.dragged = false;
        self.range = None;
    }

    /// The selection in reading order: the row, and from which character to which.
    pub fn spans(&self) -> (r: Vec<(u16, usize, usize)>)
        ensures
            span_ints(r@) == self@.spans(),
    {
        broadcast use vstd::std_specs::btree::group_btree_axioms;

        let mut spans: Vec<(u16, usize, usize)> = Vec::new();
        let Some(range) = self.range else {
            assert(span_ints(spans@) =~= Seq::empty());
            return spans;
        };
        let (start, end) = if is_before(range.0, range.1) {
            (range.0, range.1)
        } else {
            (range.1, range.0)
        };
        let ghost rows = self@.rows;
        let ghost all = spans_from(rows, start, end, start.0 as int);
        let mut row: u16 = start.0;
        assert(span_ints(spans@) + all =~= all);
        loop
            invariant_except_break
                all == span_ints(spans@) + spans_from(rows, start, end, row as int),
            invariant
                rows == self@.rows,
                start.0 <= row <= end.0,
            ensures
                all == span_ints(spans@),
            decreases end.0 - row,
        {
            let ghost before = span_ints(spans@);
            let ghost later = spans_from(rows, start, end, row + 1);
            if let Some(line) = self.rows.get(&row) {
                assert(rows.contains_key(row) && rows[row] == line@);
                let v = text::to_chars(line.as_str());
                let from: usize = if row == start.0 {
                    char_at_cell(&v, start.1 as usize)
                } else {
                    0
                };
                let mut to: usize = v.len();
                if row == end.0 {
                    let last: usize = char_at_cell(&v, end.1 as usize);
                    if last < v.len() {
                        to = last + 1;
                    }
                }
                assert(cut_of(start, end, row as int, v@) == (from as int, to as int));
                if from < to {
                    spans.push((row, from, to));
                    assert(span_ints(spans@) =~= before.push((row, from as int, to as int)));
                }
            } else {
                assert(!rows.contains_key(row));
            }
            assert(all =~= span_ints(spans@) + later);
            if row == end.0 {
                assert(later =~= Seq::empty());
                assert(all =~= span_ints(spans@));
                break;
            }
            row += 1;
        }
        spans
    }

    /// The selected text.
    pub fn text(&self) -> (r: String)
        ensures
            r@ == self@.text(),
    {
        broadcast use vstd::std_specs::btree::group_btree_axioms;

        let spans = self.spans();
        let ghost all = self@.spans();
        let ghost rows = self@.rows;
        proof {
            if let Some(range) = self.range {
                let (start, end) = ordered(range);
                lemma_spans(rows, start, end, start.0 as int);
            }
        }
        let mut parts = text::no_texts();
        let mut i: usize = 0;
        assert(texts(parts@) =~= cuts(rows, all).take(0));
        while i < spans.len()
            invariant
                i <= spans.len(),
                rows == self@.rows,
                all == span_ints(spans@),
                forall|k: int|
                    0 <= k < all.len() ==> {
                        let span = #[trigger] all[k];
                        &&& rows.contains_key(span.0)
                        &&& 0 <= span.1 < span.2 <= rows[span.0].len()
                    },
                texts(parts@) == cuts(rows, all).take(i as int),
            decreases spans.len() - i,
        {
            let (row, from, to) = spans[i];
            assert(all[i as int] == (row, from as int, to as int));
            if let Some(line) = self.rows.get(&row) {
                let v = text::to_chars(line.as_str());
                let cut = text::from_chars(&v, from, to);
                let kept = text::trim_end(cut.as_str());
                text::push_text(&mut parts, kept.as_str());
            }
            i += 1;
            assert(texts(parts@) =~= cuts(rows, all).take(i as int));
        }
        assert(cuts(rows, all).take(i as int) =~= cuts(rows, all));
        let whole = text::join(&parts, "\n");
        text::trim_end(whole.as_str())
    }

    /// Restyles a line, drawn at `row`, to show what is selected in it.
    pub fn highlight(&self, row: u16, line: Line) -> (r: Line)
        ensures
            r@ == highlighted(self@, row, line@),
    {
        let spans = self.spans();
        let ghost all = self@.spans();
        proof {
            if let Some(range) = self.range {
                let (start, end) = ordered(range);
                lemma_spans(self@.rows, start, end, start.0 as int);
            }
        }
        let mut found: Option<(usize, usize)> = None;
        let mut i: usize = 0;
        while i < spans.len() && found.is_none()
            invariant
                i <= spans.len(),
                all == span_ints(spans@),
                forall|k: int| 0 <= k < all.len() ==> (#[trigger] all[k]).1 < all[k].2,
                match found {
                    None => span_at(all, row, 0) == span_at(all, row, i as int),
                    Some(cut) => span_at(all, row, 0) == Some((cut.0 as int, cut.1 as int)) && cut.0
                        < cut.1,
                },
            decreases spans.len() - i,
        {
            assert(all[i as int] == (
                spans@[i as int].0,
                spans@[i as int].1 as int,
                spans@[i as int].2 as int,
            ));
            if spans[i].0 == row {
                found = Some((spans[i].1, spans[i].2));
            }
            i += 1;
        }
        let Some((from, to)) = found else {
            return line;
        };
        let ghost runs = span_views(line.spans@);
        let mut out: Vec<Span> = Vec::new();
        let mut column: usize = 0;
        let mut k: usize = 0;
        assert(runs.take(0) =~= Seq::empty());
        assert(span_views(out@) =~= Seq::empty());
        while k < line.spans.len()
            invariant
                k <= line.spans.len(),
                runs == span_views(line.spans@),
                span_views(out@) == marked(runs.take(k as int), from as int, to as int),
                column as nat == length(runs.take(k as int)) || to <= column <= length(
                    runs.take(k as int),
                ),
                from < to,
            decreases line.spans.len() - k,
        {
            assert(runs.take(k as int + 1).drop_last() =~= runs.take(k as int));
            assert(runs[k as int] == line.spans@[k as int]@);
            let pieces = split(&line.spans[k], column, from, to);
            let ghost done = span_views(out@);
            let ghost added = span_views(pieces@);
            let mut pieces = pieces;
            out.append(&mut pieces);
            assert(span_views(out@) =~= done + added);
            let width: usize = line.spans[k].content.as_str().unicode_len();
            column = if width <= usize::MAX - column {
                column + width
            } else {
                usize::MAX
            };
            k += 1;
        }
        assert(runs.take(k as int) =~= runs);
        Line { spans: out, style: line.style }
    }
}

/// What the first of some spans selects of a row.
pub open spec fn span_at(spans: Seq<(u16, int, int)>, row: u16, i: int) -> Option<(int, int)>
    decreases spans.len() - i,
{
    if i < 0 || i >= spans.len() {
        None
    } else if spans[i].0 == row {
        Some((spans[i].1, spans[i].2))
    } else {
        span_at(spans, row, i + 1)
    }
}

/// How many characters some runs have.
pub open spec fn length(runs: Seq<SpanView>) -> nat
    decreases runs.len(),
{
    if runs.len() == 0 {
        0
    } else {
        length(runs.drop_last()) + runs.last().content.len()
    }
}

/// A run that begins at the column `start`, cut where a selection begins and ends inside it. The
/// selected piece keeps the run's own colours: a selection marks what is under it rather than
/// replacing it.
pub open spec fn pieces_of(run: SpanView, start: int, from: int, to: int) -> Seq<SpanView> {
    let len = run.content.len() as int;
    if start + len <= from || start >= to {
        seq![run]
    } else {
        let first = if from > start {
            from - start
        } else {
            0
        };
        let last = if to - start < len {
            to - start
        } else {
            len
        };
        let before = SpanView { content: run.content.take(first), ..run };
        let selected = SpanView {
            content: run.content.subrange(first, last),
            style: Style { reversed: true, ..run.style },
        };
        let after = SpanView { content: run.content.skip(last), ..run };
        (if first > 0 {
            seq![before]
        } else {
            Seq::empty()
        }) + seq![selected] + (if last < len {
            seq![after]
        } else {
            Seq::empty()
        })
    }
}

/// Some runs with a selection marked in them.
pub open spec fn marked(runs: Seq<SpanView>, from: int, to: int) -> Seq<SpanView>
    decreases runs.len(),
{
    if runs.len() == 0 {
        Seq::empty()
    } else {
        marked(runs.drop_last(), from, to) + pieces_of(
            runs.last(),
            length(runs.drop_last()) as int,
            from,
            to,
        )
    }
}

/// A line drawn at `row` with what is selected in it marked.
pub open spec fn highlighted(selection: SelectionView, row: u16, line: LineView) -> LineView {
    match span_at(selection.spans(), row, 0) {
        None => line,
        Some((from, to)) => LineView { spans: marked(line.spans, from, to), style: line.style },
    }
}

/// Cuts one run where the selection starts and ends inside it.
fn split(span: &Span, start: usize, from: usize, to: usize) -> (r: Vec<Span>)
    requires
        from < to,
    ensures
        span_views(r@) == pieces_of(span@, start as int, from as int, to as int),
{
    let v = text::to_chars(span.content.as_str());
    let mut pieces: Vec<Span> = Vec::new();
    assert(span_views(pieces@) =~= Seq::empty());
    if (start <= from && v.len() <= from - start) || start >= to {
        push_span(&mut pieces, span.copy());
        assert(span_views(pieces@) =~= seq![span@]);
        return pieces;
    }
    let first: usize = if from > start {
        from - start
    } else {
        0
    };
    let last: usize = if to - start < v.len() {
        to - start
    } else {
        v.len()
    };
    if first > 0 {
        let before = text::from_chars(&v, 0, first);
        assert(before@ =~= v@.take(first as int));
        push_span(&mut pieces, Span { content: before, style: span.style });
    }
    let selected = text::from_chars(&v, first, last);
    push_span(&mut pieces, Span { content: selected, style: span.style.reversed() });
    if last < v.len() {
        let after = text::from_chars(&v, last, v.len());
        assert(after@ =~= v@.skip(last as int));
        push_span(&mut pieces, Span { content: after, style: span.style });
    }
    assert(span_views(pieces@) =~= pieces_of(span@, start as int, from as int, to as int));
    pieces
}

// Laws.

/// The characters of some runs, each with the style it is drawn in.
pub open spec fn drawn(runs: Seq<SpanView>) -> Seq<(char, Style)>
    decreases runs.len(),
{
    if runs.len() == 0 {
        Seq::empty()
    } else {
        drawn(runs.drop_last()) + inked(runs.last())
    }
}

/// The characters of a run, each with the style it is drawn in.
pub open spec fn inked(run: SpanView) -> Seq<(char, Style)> {
    run.content.map_values(|c: char| (c, run.style))
}

/// What is drawn of some runs behind others.
proof fn lemma_drawn_add(a: Seq<SpanView>, b: Seq<SpanView>)
    ensures
        drawn(a + b) == drawn(a) + drawn(b),
    decreases b.len(),
{
    if b.len() == 0 {
        assert(a + b =~= a);
        assert(drawn(a) + drawn(b) =~= drawn(a));
    } else {
        lemma_drawn_add(a, b.drop_last());
        assert((a + b).drop_last() =~= a + b.drop_last());
        assert(drawn(a + b) =~= drawn(a) + drawn(b));
    }
}

/// What is drawn of one run.
proof fn lemma_drawn_one(run: SpanView)
    ensures
        drawn(seq![run]) == inked(run),
{
    assert(seq![run].drop_last() =~= Seq::empty());
    assert(drawn(seq![run].drop_last()) =~= Seq::empty());
    assert(drawn(seq![run]) =~= inked(run));
}

/// What is drawn of the pieces of a run.
proof fn lemma_pieces(run: SpanView, start: int, from: int, to: int)
    requires
        from < to,
        0 <= start,
    ensures
        drawn(pieces_of(run, start, from, to)).len() == run.content.len(),
        forall|i: int|
            0 <= i < run.content.len() ==> #[trigger] drawn(pieces_of(run, start, from, to))[i] == (
                run.content[i],
                if from <= start + i < to {
                    Style { reversed: true, ..run.style }
                } else {
                    run.style
                },
            ),
{
    let len = run.content.len() as int;
    let all = pieces_of(run, start, from, to);
    if start + len <= from || start >= to {
        lemma_drawn_one(run);
    } else {
        let first = if from > start {
            from - start
        } else {
            0
        };
        let last = if to - start < len {
            to - start
        } else {
            len
        };
        let before = SpanView { content: run.content.take(first), ..run };
        let selected = SpanView {
            content: run.content.subrange(first, last),
            style: Style { reversed: true, ..run.style },
        };
        let after = SpanView { content: run.content.skip(last), ..run };
        let a = if first > 0 {
            seq![before]
        } else {
            Seq::empty()
        };
        let c = if last < len {
            seq![after]
        } else {
            Seq::empty()
        };
        lemma_drawn_one(before);
        lemma_drawn_one(selected);
        lemma_drawn_one(after);
        assert(drawn(a) =~= inked(before));
        assert(drawn(c) =~= inked(after));
        lemma_drawn_add(a, seq![selected]);
        lemma_drawn_add(a + seq![selected], c);
        assert(all =~= a + seq![selected] + c);
        assert(drawn(all) =~= inked(before) + inked(selected) + inked(after));
    }
}

/// A highlight changes no character and moves none: each keeps its place and its colours, and
/// those that are selected, and no others, have them exchanged.
pub proof fn a_highlight_marks_what_is_selected(runs: Seq<SpanView>, from: int, to: int)
    requires
        from < to,
    ensures
        drawn(runs).len() == length(runs),
        drawn(marked(runs, from, to)).len() == length(runs),
        forall|i: int|
            0 <= i < length(runs) ==> #[trigger] drawn(marked(runs, from, to))[i] == (
                drawn(runs)[i].0,
                if from <= i < to {
                    Style { reversed: true, ..drawn(runs)[i].1 }
                } else {
                    drawn(runs)[i].1
                },
            ),
    decreases runs.len(),
{
    if runs.len() > 0 {
        let init = runs.drop_last();
        let start = length(init) as int;
        a_highlight_marks_what_is_selected(init, from, to);
        lemma_pieces(runs.last(), start, from, to);
        lemma_drawn_add(marked(init, from, to), pieces_of(runs.last(), start, from, to));
        let all = drawn(marked(runs, from, to));
        assert forall|i: int| 0 <= i < length(runs) implies #[trigger] all[i] == (
            drawn(runs)[i].0,
            if from <= i < to {
                Style { reversed: true, ..drawn(runs)[i].1 }
            } else {
                drawn(runs)[i].1
            },
        ) by {
            if i < start {
                assert(all[i] == drawn(marked(init, from, to))[i]);
                assert(drawn(runs)[i] == drawn(init)[i]);
            } else {
                assert(all[i] == drawn(pieces_of(runs.last(), start, from, to))[i - start]);
                assert(drawn(runs)[i] == inked(runs.last())[i - start]);
            }
        }
    }
}

/// A press and a release in one place is a click: it selects nothing.
pub proof fn a_click_selects_nothing(selection: SelectionView, at: (u16, u16))
    ensures
        !selection.pressed(at).dragged_to(at).dragged,
        selection.pressed(at).dragged_to(at).released() == selection.cleared(),
{
}

/// The first character that reaches beyond a cell.
proof fn lemma_first_reaching(s: Seq<char>, cell: int, i: int)
    requires
        0 <= i <= s.len(),
    ensures
        i <= reaching(s, cell, i) <= s.len(),
        forall|k: int|
            i <= k < reaching(s, cell, i) ==> all_taken(#[trigger] s.take(k + 1)) <= cell,
        forall|k: int|
            reaching(s, cell, i) <= k < s.len() ==> all_taken(#[trigger] s.take(k + 1)) > cell,
    decreases s.len() - i,
{
    if i < s.len() {
        if cell < all_taken(s.take(i + 1)) {
            assert forall|k: int| i <= k < s.len() implies all_taken(#[trigger] s.take(k + 1))
                > cell by {
                lemma_taken_grows(s, i + 1, k + 1);
            }
        } else {
            lemma_first_reaching(s, cell, i + 1);
        }
    }
}

proof fn lemma_taken_grows(s: Seq<char>, i: int, k: int)
    requires
        0 <= i <= k <= s.len(),
    ensures
        all_taken(s.take(i)) + (k - i) <= all_taken(s.take(k)),
    decreases k - i,
{
    if i < k {
        lemma_taken_grows(s, i, k - 1);
        assert(s.take(k).drop_last() =~= s.take(k - 1));
    }
}

/// What is selected is what lies between the two ends, in cells: of a row that is drawn, a
/// character is selected just where it reaches beyond the column that the selection starts in,
/// where it starts on that row, and begins no later than the column that it ends in, where it ends
/// there.
pub proof fn what_lies_between_the_ends_is_selected(
    start: (u16, u16),
    end: (u16, u16),
    row: int,
    s: Seq<char>,
    i: int,
)
    requires
        precedes(start, end),
        start.0 <= row <= end.0,
        0 <= i < s.len(),
    ensures
        cut_of(start, end, row, s).0 <= i < cut_of(start, end, row, s).1 <==> {
            &&& row == start.0 ==> all_taken(s.take(i + 1)) > start.1
            &&& row == end.0 ==> all_taken(s.take(i)) <= end.1
        },
{
    lemma_first_reaching(s, start.1 as int, 0);
    lemma_first_reaching(s, end.1 as int, 0);
    let last = char_at(s, end.1 as int);
    assert(all_taken(s.take(0)) == 0) by {
        assert(s.take(0) =~= Seq::<char>::empty());
    }
    if row == end.0 {
        if i > 0 {
            assert(all_taken(s.take(i - 1 + 1)) <= end.1 <==> i - 1 < last);
        }
    }
    assert(row == start.0 ==> (all_taken(s.take(i + 1)) > start.1 <==> char_at(
        s,
        start.1 as int,
    ) <= i));
}

/// A selection has a part of each drawn row between its ends that it selects anything of, from the
/// top to the bottom, and of no other row.
pub proof fn a_selection_is_read_from_top_to_bottom(
    rows: Map<u16, Seq<char>>,
    start: (u16, u16),
    end: (u16, u16),
    row: int,
)
    requires
        0 <= row,
    ensures
        forall|i: int|
            0 <= i < spans_from(rows, start, end, row).len() ==> {
                let span = #[trigger] spans_from(rows, start, end, row)[i];
                &&& row <= span.0 <= end.0
                &&& rows.contains_key(span.0)
                &&& (span.1, span.2) == cut_of(start, end, span.0 as int, rows[span.0])
                &&& span.1 < span.2
            },
        forall|i: int, j: int|
            0 <= i < j < spans_from(rows, start, end, row).len() ==> spans_from(
                rows,
                start,
                end,
                row,
            )[i].0 < spans_from(rows, start, end, row)[j].0,
        forall|r: u16|
            row <= r <= end.0 && #[trigger] rows.contains_key(r) && cut_of(
                start,
                end,
                r as int,
                rows[r],
            ).0 < cut_of(start, end, r as int, rows[r]).1 ==> spans_from(
                rows,
                start,
                end,
                row,
            ).contains(
                (
                    r,
                    cut_of(start, end, r as int, rows[r]).0,
                    cut_of(start, end, r as int, rows[r]).1,
                ),
            ),
    decreases end.0 - row + 1,
{
    if row <= end.0 {
        a_selection_is_read_from_top_to_bottom(rows, start, end, row + 1);
        let later = spans_from(rows, start, end, row + 1);
        let all = spans_from(rows, start, end, row);
        let own = rows.contains_key(row as u16) && cut_of(start, end, row, rows[row as u16]).0
            < cut_of(start, end, row, rows[row as u16]).1;
        let shift: int = if own {
            1
        } else {
            0
        };
        assert forall|k: int| 0 <= k < later.len() implies all[k + shift] == #[trigger] later[k] by {}
        assert forall|i: int| shift <= i < all.len() implies #[trigger] all[i] == later[i
            - shift] by {
            assert(later[i - shift] == all[i - shift + shift]);
        }
        assert forall|r: u16|
            row <= r <= end.0 && #[trigger] rows.contains_key(r) && cut_of(
                start,
                end,
                r as int,
                rows[r],
            ).0 < cut_of(start, end, r as int, rows[r]).1 implies all.contains(
            (
                r,
                cut_of(start, end, r as int, rows[r]).0,
                cut_of(start, end, r as int, rows[r]).1,
            ),
        ) by {
            let span = (
                r,
                cut_of(start, end, r as int, rows[r]).0,
                cut_of(start, end, r as int, rows[r]).1,
            );
            if r == row {
                assert(all[0] == span);
            } else {
                assert(later.contains(span));
                let k = later.index_of(span);
                assert(all[k + shift] == later[k]);
            }
        }
    }
}

/// Rows are remembered where they are drawn, one below the other, and those above and below stay.
pub proof fn rows_are_remembered_where_they_are_drawn(
    rows: Map<u16, Seq<char>>,
    top: u16,
    added: Seq<Seq<char>>,
    r: u16,
)
    requires
        top + added.len() <= u16::MAX,
    ensures
        top <= r < top + added.len() ==> {
            &&& with_rows(rows, top, added).contains_key(r)
            &&& with_rows(rows, top, added)[r] == added[r - top]
        },
        r < top || r >= top + added.len() ==> {
            &&& with_rows(rows, top, added).contains_key(r) == rows.contains_key(r)
            &&& with_rows(rows, top, added)[r] == rows[r]
        },
    decreases added.len(),
{
    if added.len() > 0 {
        rows_are_remembered_where_they_are_drawn(rows, top, added.drop_last(), r);
    }
}

/// A drag selects from where the button went down to where the pointer is, whichever comes first,
/// and the way back selects the same.
pub proof fn a_drag_selects_from_the_press(view: SelectionView, a: (u16, u16), b: (u16, u16))
    requires
        a != b,
    ensures
        ({
            let there = view.pressed(a).dragged_to(b);
            let back = view.pressed(b).dragged_to(a);
            &&& there.range is Some
            &&& there.dragged
            &&& there.spans() == back.spans()
            &&& there.rows == view.rows
            &&& precedes(a, b) ==> there.spans() == spans_from(view.rows, a, b, a.0 as int)
        }),
{
}

} // verus!

//! The prompt box.
//!
//! Wrapping happens here rather than in a widget: a widget that wraps internally does not say
//! how many rows it produced, and both the box's height and the cursor's on-screen position
//! need that count before anything is drawn.

use vstd::prelude::*;
use crate::cells;
use crate::cells::{char_cells, text_cells};
use crate::input::{InputBox, InputView};
use crate::text;
use crate::text::texts;

verus! {

/// Grow with the text, but never past this, so the transcript keeps the screen.
pub const MAX_ROWS: u16 = 8;

/// How many cells a character takes in the box: at least one.
pub open spec fn cell_size(c: char) -> nat {
    match char_cells(c) {
        Some(n) => if n > 0 {
            n as nat
        } else {
            1
        },
        None => 1,
    }
}

/// How many cells a character takes in the box.
fn size_in_cells(c: char) -> (r: usize)
    ensures
        r == cell_size(c),
        1 <= r <= 3,
{
    match cells::char_width(c) {
        Some(n) => if n > 0 {
            n
        } else {
            1
        },
        None => 1,
    }
}

/// How many cells a text takes in the box.
pub open spec fn cells_of(s: Seq<char>) -> nat
    decreases s.len(),
{
    if s.len() == 0 {
        0
    } else {
        cells_of(s.drop_last()) + cell_size(s.last())
    }
}

/// A line being wrapped: the rows that are full and the row under way.
pub struct Rows {
    pub rows: Seq<Seq<char>>,
    pub current: Seq<char>,
}

/// Whether a character has to go on a new row.
pub open spec fn breaks_row(state: Rows, c: char, width: nat) -> bool {
    state.current.len() > 0 && cells_of(state.current) + cell_size(c) > width
}

/// A line broken into rows.
pub open spec fn row_wrapping(line: Seq<char>, width: nat) -> Rows
    decreases line.len(),
{
    if line.len() == 0 {
        Rows { rows: Seq::empty(), current: Seq::empty() }
    } else {
        let before = row_wrapping(line.drop_last(), width);
        if breaks_row(before, line.last(), width) {
            Rows { rows: before.rows.push(before.current), current: seq![line.last()] }
        } else {
            Rows { rows: before.rows, current: before.current.push(line.last()) }
        }
    }
}

/// The rows of a line, each of which fits in `width` cells where its characters do.
pub open spec fn row_wrapped(line: Seq<char>, width: nat) -> Seq<Seq<char>> {
    if width == 0 {
        seq![line]
    } else {
        let state = row_wrapping(line, width);
        state.rows.push(state.current)
    }
}

/// A row holds something where it takes cells.
proof fn lemma_cells_positive(s: Seq<char>)
    ensures
        s.len() <= cells_of(s),
        (s.len() == 0) == (cells_of(s) == 0),
    decreases s.len(),
{
    if s.len() > 0 {
        lemma_cells_positive(s.drop_last());
    }
}

/// A row under way is one character or fits.
proof fn lemma_row_bounds(line: Seq<char>, width: nat)
    ensures
        cells_of(row_wrapping(line, width).current) <= width || row_wrapping(
            line,
            width,
        ).current.len() <= 1,
        line.len() > 0 ==> row_wrapping(line, width).current.len() > 0,
    decreases line.len(),
{
    if line.len() > 0 {
        lemma_row_bounds(line.drop_last(), width);
        let before = row_wrapping(line.drop_last(), width);
        assert(before.current.push(line.last()).drop_last() =~= before.current);
    }
}

/// Breaks `line` into rows that each fit in `width` screen cells, without splitting a
/// double-width glyph across two rows. An empty line still produces one (empty) row.
pub fn wrap_cells(line: &str, width: usize) -> (r: Vec<String>)
    ensures
        texts(r@) == row_wrapped(line@, width as nat),
{
    let mut rows: Vec<String> = Vec::new();
    if width == 0 {
        rows.push(text::copy(line));
        assert(texts(rows@) =~= seq![line@]);
        return rows;
    }
    let v = text::to_chars(line);
    let mut current = String::new();
    let mut used: usize = 0;
    let mut i: usize = 0;
    proof {
        assert(v@.take(0) =~= Seq::<char>::empty());
        assert(texts(rows@) =~= Seq::empty());
        assert(current@ =~= Seq::<char>::empty());
    }
    while i < v.len()
        invariant
            i <= v.len(),
            v@ == line@,
            width > 0,
            used == cells_of(current@),
            used <= width || used <= 3,
            (Rows { rows: texts(rows@), current: current@ }) == row_wrapping(
                v@.take(i as int),
                width as nat,
            ),
        decreases v.len() - i,
    {
        assert(v@.take(i as int + 1).drop_last() =~= v@.take(i as int));
        proof {
            lemma_cells_positive(current@);
        }
        let w: usize = size_in_cells(v[i]);
        if used > 0 && (w > width || used > width - w) {
            let ghost done = texts(rows@).push(current@);
            rows.push(current);
            assert(texts(rows@) =~= done);
            current = String::new();
            current.push(v[i]);
            assert(current@ =~= seq![v@[i as int]]);
            assert(current@.drop_last() =~= Seq::<char>::empty());
            assert(cells_of(current@) == cells_of(current@.drop_last()) + w);
            used = w;
        } else {
            let ghost before = current@;
            current.push(v[i]);
            assert(current@.drop_last() =~= before);
            used = used + w;
        }
        i += 1;
    }
    assert(v@.take(i as int) =~= v@);
    let ghost done = texts(rows@).push(current@);
    rows.push(current);
    assert(texts(rows@) =~= done);
    rows
}

/// Where the character at `k`, or the end of the line, lands once the line is wrapped: its
/// row and the cells before it on that row.
pub open spec fn caret_at(line: Seq<char>, k: int, width: nat) -> (nat, nat) {
    let state = row_wrapping(line.take(k), width);
    if k < line.len() && breaks_row(state, line[k], width) {
        (state.rows.len() + 1, 0)
    } else {
        (state.rows.len(), cells_of(state.current))
    }
}

/// The first character at or behind cell `column`, or the end of the line, searched from `k`
/// on.
pub open spec fn index_at(line: Seq<char>, column: nat, k: int) -> int
    decreases line.len() - k,
{
    if k < 0 || k >= line.len() || cells_of(line.take(k)) >= column {
        k
    } else {
        index_at(line, column, k + 1)
    }
}

/// Where a cursor at cell `column` of `line` lands once `line` is wrapped to `width`.
pub open spec fn wrapped_caret(line: Seq<char>, column: nat, width: nat) -> (nat, nat) {
    if width == 0 {
        (0, column)
    } else {
        caret_at(line, index_at(line, column, 0), width)
    }
}

/// Where a cursor at cell `column` of `line` lands once `line` is wrapped to `width`: the
/// wrapped row offset within the line, and the cell column within that row. Follows the break
/// points of [`wrap_cells`] exactly, so the caret always sits over the character it is
/// actually before.
pub fn wrap_position(line: &str, column: usize, width: usize) -> (r: (usize, usize))
    ensures
        (r.0 as nat, r.1 as nat) == wrapped_caret(line@, column as nat, width as nat),
{
    if width == 0 {
        return (0, column);
    }
    let v = text::to_chars(line);
    let mut row: usize = 0;
    let mut used: usize = 0;
    let mut consumed: usize = 0;
    let mut i: usize = 0;
    assert(v@.take(0) =~= Seq::<char>::empty());
    while i < v.len() && consumed < column
        invariant
            i <= v.len(),
            v@ == line@,
            width > 0,
            row <= i,
            row == row_wrapping(v@.take(i as int), width as nat).rows.len(),
            used == cells_of(row_wrapping(v@.take(i as int), width as nat).current),
            used <= width || used <= 3,
            consumed <= column,
            consumed < column ==> consumed == cells_of(v@.take(i as int)),
            consumed == column ==> cells_of(v@.take(i as int)) >= column,
            index_at(line@, column as nat, 0) == index_at(line@, column as nat, i as int),
        decreases v.len() - i,
    {
        let ghost state = row_wrapping(v@.take(i as int), width as nat);
        assert(v@.take(i as int + 1).drop_last() =~= v@.take(i as int));
        proof {
            lemma_cells_positive(state.current);
        }
        let w: usize = size_in_cells(v[i]);
        if used > 0 && (w > width || used > width - w) {
            proof {
                let fresh = seq![v@[i as int]];
                assert(fresh.drop_last() =~= Seq::<char>::empty());
                assert(cells_of(fresh) == cells_of(fresh.drop_last()) + w);
            }
            row += 1;
            used = w;
        } else {
            assert(state.current.push(v@[i as int]).drop_last() =~= state.current);
            used = used + w;
        }
        if w >= column - consumed {
            consumed = column;
        } else {
            consumed = consumed + w;
        }
        i += 1;
    }
    assert(index_at(line@, column as nat, i as int) == i);
    if i < v.len() {
        proof {
            lemma_cells_positive(row_wrapping(v@.take(i as int), width as nat).current);
        }
        let w: usize = size_in_cells(v[i]);
        if used > 0 && (w > width || used > width - w) {
            return (row + 1, 0);
        }
    }
    (row, used)
}

/// How many rows some lines wrap to.
pub open spec fn rows_of(lines: Seq<Seq<char>>, width: nat) -> nat
    decreases lines.len(),
{
    if lines.len() == 0 {
        0
    } else {
        rows_of(lines.drop_last(), width) + row_wrapped(lines.last(), width).len()
    }
}

/// How wide the text in a box of this width may be.
pub open spec fn inner_width(area_width: u16) -> nat {
    if area_width > 3 {
        (area_width - 2) as nat
    } else {
        1
    }
}

/// How tall the prompt box is: as its text, within its limits, and its borders.
pub open spec fn box_height(lines: Seq<Seq<char>>, area_width: u16) -> int {
    let used = rows_of(lines, inner_width(area_width));
    (if used > MAX_ROWS {
        MAX_ROWS as int
    } else if used < 1 {
        1
    } else {
        used as int
    }) + 2
}

/// How tall the prompt box is.
pub fn rows(input: &InputBox, area_width: u16) -> (r: u16)
    ensures
        r == box_height(input@.lines, area_width),
{
    let width: usize = if area_width > 3 {
        (area_width - 2) as usize
    } else {
        1
    };
    let lines = input.lines();
    let ghost all = texts(lines@);
    let mut used: u16 = 0;
    let mut i: usize = 0;
    while i < lines.len()
        invariant
            i <= lines.len(),
            all == texts(lines@),
            used <= MAX_ROWS,
            used < MAX_ROWS ==> used == rows_of(all.take(i as int), width as nat),
            used == MAX_ROWS ==> rows_of(all.take(i as int), width as nat) >= MAX_ROWS,
        decreases lines.len() - i,
    {
        assert(all.take(i as int + 1).drop_last() =~= all.take(i as int));
        assert(all[i as int] == lines@[i as int]@);
        let own = wrap_cells(lines[i].as_str(), width);
        assert(own.len() == row_wrapped(all[i as int], width as nat).len());
        let room: u16 = MAX_ROWS - used;
        if own.len() >= room as usize {
            used = MAX_ROWS;
        } else {
            used = used + own.len() as u16;
        }
        i += 1;
    }
    assert(all.take(i as int) =~= all);
    let shown: u16 = if used < 1 {
        1
    } else {
        used
    };
    shown + 2
}

/// What the prompt box shows.
#[derive(Debug, PartialEq, Eq)]
pub struct Shown {
    /// The rows on screen, from the top of the box.
    pub rows: Vec<String>,
    /// The cursor's row and column in the box.
    pub cursor: (usize, usize),
}

/// The rows of some lines, one after the other.
pub open spec fn all_rows(lines: Seq<Seq<char>>, width: nat) -> Seq<Seq<char>>
    decreases lines.len(),
{
    if lines.len() == 0 {
        Seq::empty()
    } else {
        all_rows(lines.drop_last(), width) + row_wrapped(lines.last(), width)
    }
}

/// The first row on screen: the cursor's row is the last one there at the latest.
pub open spec fn first_row(cursor_row: nat, visible: nat) -> nat {
    if visible == 0 {
        cursor_row
    } else if cursor_row + 1 > visible {
        (cursor_row + 1 - visible) as nat
    } else {
        0
    }
}

/// The row of the cursor among all rows, and its column.
pub open spec fn cursor_place(input: InputView, width: nat) -> (nat, nat) {
    let (row, column) = wrapped_caret(input.line(), text_cells(input.head()) as nat, width);
    (all_rows(input.lines.take(input.row), width).len() + row, column)
}

/// The rows of a window of `visible` rows from `first` on.
pub open spec fn window(rows: Seq<Seq<char>>, first: nat, visible: nat) -> Seq<Seq<char>> {
    if first >= rows.len() {
        Seq::empty()
    } else if first + visible >= rows.len() {
        rows.skip(first as int)
    } else {
        rows.subrange(first as int, (first + visible) as int)
    }
}

/// Lays out the prompt in a box with room for `width` cells and `visible` rows.
///
/// A prompt longer than the box scrolls inside it, anchored so the cursor is always on screen:
/// text that has been typed but cannot be seen is worse than a box that grew.
pub fn layout(input: &InputBox, width: usize, visible: usize) -> (r: Shown)
    requires
        width > 0,
    ensures
        ({
            let (row, column) = cursor_place(input@, width as nat);
            let first = first_row(row, visible as nat);
            &&& texts(r.rows@) == window(
                all_rows(input@.lines, width as nat),
                first,
                visible as nat,
            )
            &&& r.cursor.0 == row - first
            &&& r.cursor.1 == column
        }),
{
    let (cursor_row, cursor_column) = input.cursor_display();
    let lines = input.lines();
    let ghost all = texts(lines@);
    let mut rows: Vec<String> = Vec::new();
    let mut above: usize = 0;
    let mut offset: usize = 0;
    let mut column: usize = 0;
    let mut i: usize = 0;
    assert(texts(rows@) =~= all_rows(all.take(0), width as nat));
    while i < lines.len()
        invariant
            i <= lines.len(),
            all == texts(lines@),
            all == input@.lines,
            input@.valid(),
            cursor_row == input@.row,
            cursor_column == text_cells(input@.head()),
            texts(rows@) == all_rows(all.take(i as int), width as nat),
            i > cursor_row ==> {
                &&& above == all_rows(all.take(cursor_row as int), width as nat).len()
                &&& (offset as nat, column as nat) == wrapped_caret(
                    input@.line(),
                    text_cells(input@.head()) as nat,
                    width as nat,
                )
                &&& above + offset <= rows.len()
            },
            width > 0,
        decreases lines.len() - i,
    {
        let ghost done = texts(rows@);
        assert(all.take(i as int + 1).drop_last() =~= all.take(i as int));
        assert(all[i as int] == lines@[i as int]@);
        let own = wrap_cells(lines[i].as_str(), width);
        let ghost own_rows = row_wrapped(all[i as int], width as nat);
        if i == cursor_row {
            let place = wrap_position(lines[i].as_str(), cursor_column, width);
            above = rows.len();
            offset = place.0;
            column = place.1;
            assert(above == done.len());
            proof {
                lemma_index_in_line(all[i as int], cursor_column as nat, 0);
                lemma_caret_in_rows(
                    all[i as int],
                    index_at(all[i as int], cursor_column as nat, 0),
                    width as nat,
                );
            }
        }
        append_rows(&mut rows, own);
        assert(texts(rows@) == done + own_rows);
        assert(rows.len() == done.len() + own_rows.len());
        i += 1;
    }
    assert(all.take(i as int) =~= all);
    let row: usize = above + offset;
    let first: usize = if visible == 0 {
        row
    } else if row >= visible {
        row - (visible - 1)
    } else {
        0
    };
    let mut shown: Vec<String> = Vec::new();
    let ghost whole = texts(rows@);
    let end: usize = if first >= rows.len() {
        first
    } else if visible >= rows.len() - first {
        rows.len()
    } else {
        first + visible
    };
    let mut k: usize = first;
    while k < end
        invariant
            first <= k <= end,
            end <= rows.len() || end == first,
            whole == texts(rows@),
            shown.len() == k - first,
            forall|j: int| 0 <= j < shown.len() ==> (#[trigger] shown@[j])@ == whole[first + j],
        decreases end - k,
    {
        assert(whole[k as int] == rows@[k as int]@);
        shown.push(rows[k].clone());
        k += 1;
    }
    assert(texts(shown@) =~= window(whole, first as nat, visible as nat));
    Shown { rows: shown, cursor: (row - first, column) }
}

/// Appends `more` to `rows`.
fn append_rows(rows: &mut Vec<String>, more: Vec<String>)
    ensures
        texts(final(rows)@) == texts(old(rows)@) + texts(more@),
{
    let mut more = more;
    let ghost tail = more@;
    rows.append(&mut more);
    assert(texts(rows@) =~= texts(old(rows)@) + texts(tail));
}

/// A place on a line is on the line.
proof fn lemma_index_in_line(line: Seq<char>, column: nat, k: int)
    requires
        0 <= k <= line.len(),
    ensures
        k <= index_at(line, column, k) <= line.len(),
    decreases line.len() - k,
{
    if k < line.len() && cells_of(line.take(k)) < column {
        lemma_index_in_line(line, column, k + 1);
    }
}

/// Wrapping more of a line keeps the rows that are full, and the row under way goes on.
proof fn lemma_rows_grow(line: Seq<char>, k: int, n: int, width: nat)
    requires
        0 <= k <= n <= line.len(),
    ensures
        ({
            let a = row_wrapping(line.take(k), width);
            let b = row_wrapping(line.take(n), width);
            let rows = b.rows.push(b.current);
            &&& a.rows.len() < rows.len()
            &&& forall|i: int| 0 <= i < a.rows.len() ==> #[trigger] rows[i] == a.rows[i]
            &&& a.current.len() <= rows[a.rows.len() as int].len()
            &&& rows[a.rows.len() as int].take(a.current.len() as int) == a.current
        }),
    decreases n - k,
{
    let a = row_wrapping(line.take(k), width);
    let b = row_wrapping(line.take(n), width);
    let rows = b.rows.push(b.current);
    if k == n {
        assert(rows[a.rows.len() as int].take(a.current.len() as int) =~= a.current);
    } else {
        lemma_rows_grow(line, k, n - 1, width);
        let c = row_wrapping(line.take(n - 1), width);
        let before = c.rows.push(c.current);
        assert(line.take(n).drop_last() =~= line.take(n - 1));
        assert forall|i: int| 0 <= i < a.rows.len() implies #[trigger] rows[i] == a.rows[i] by {
            assert(before[i] == a.rows[i]);
        }
        let r = a.rows.len() as int;
        if breaks_row(c, line[n - 1], width) {
            assert(rows[r] == before[r]);
        } else if r < c.rows.len() {
            assert(rows[r] == before[r]);
        } else {
            assert(rows[r].take(a.current.len() as int) =~= before[r].take(a.current.len() as int));
        }
    }
}

/// A caret stands on one of the rows of its line.
proof fn lemma_caret_in_rows(line: Seq<char>, k: int, width: nat)
    requires
        0 <= k <= line.len(),
        width > 0,
    ensures
        caret_at(line, k, width).0 < row_wrapped(line, width).len(),
{
    lemma_rows_grow(line, k, line.len() as int, width);
    assert(line.take(line.len() as int) =~= line);
    if k < line.len() {
        lemma_rows_grow(line, k + 1, line.len() as int, width);
        assert(line.take(k + 1).drop_last() =~= line.take(k));
    }
}

// Laws.

/// Wrapping breaks a line and changes nothing else: its rows, one after the other, are the
/// line.
pub proof fn rows_are_the_line(line: Seq<char>, width: nat)
    ensures
        row_wrapped(line, width).flatten() == line,
    decreases line.len(),
{
    if width == 0 {
        seq![line].lemma_flatten_one_element();
    } else {
        lemma_rows_flatten(line, width);
    }
}

proof fn lemma_rows_flatten(line: Seq<char>, width: nat)
    ensures
        row_wrapping(line, width).rows.flatten() + row_wrapping(line, width).current == line,
        row_wrapping(line, width).rows.push(row_wrapping(line, width).current).flatten() == line,
    decreases line.len(),
{
    broadcast use Seq::lemma_flatten_push;

    let state = row_wrapping(line, width);
    if line.len() == 0 {
        assert(state.rows.flatten() + state.current =~= line);
    } else {
        lemma_rows_flatten(line.drop_last(), width);
        let before = row_wrapping(line.drop_last(), width);
        assert(line.drop_last().push(line.last()) =~= line);
        if breaks_row(before, line.last(), width) {
            assert(state.rows.flatten() == line.drop_last());
            assert(state.rows.flatten() + state.current =~= line);
        } else {
            assert(state.rows.flatten() + state.current =~= (before.rows.flatten()
                + before.current).push(line.last()));
        }
    }
}

/// A row is never wider than the box, unless a single glyph is.
pub proof fn rows_fit(line: Seq<char>, width: nat)
    requires
        width > 0,
    ensures
        forall|i: int|
            0 <= i < row_wrapped(line, width).len() ==> cells_of(
                #[trigger] row_wrapped(line, width)[i],
            ) <= width || row_wrapped(line, width)[i].len() == 1,
    decreases line.len(),
{
    reveal_with_fuel(cells_of, 2);
    if line.len() > 0 {
        rows_fit(line.drop_last(), width);
        let before = row_wrapping(line.drop_last(), width);
        let all_before = row_wrapped(line.drop_last(), width);
        let all = row_wrapped(line, width);
        assert forall|i: int| 0 <= i < all.len() implies cells_of(#[trigger] all[i]) <= width
            || all[i].len() == 1 by {
            if i < before.rows.len() {
                assert(all[i] == all_before[i]);
            } else if breaks_row(before, line.last(), width) && i == before.rows.len() {
                assert(all[i] == all_before[i]);
            } else {
                assert(before.current.push(line.last()).drop_last() =~= before.current);
            }
        }
    }
}

/// The caret sits over the character it is before: where the cursor stands before the
/// character at `k`, that character stands on the caret's row with as many cells before it as
/// the caret's column says.
pub proof fn the_caret_sits_over_its_character(line: Seq<char>, k: int, width: nat)
    requires
        width > 0,
        0 <= k < line.len(),
    ensures
        ({
            let (row, column) = caret_at(line, k, width);
            let rows = row_wrapped(line, width);
            &&& row < rows.len()
            &&& exists|j: int|
                0 <= j < rows[row as int].len() && #[trigger] rows[row as int][j] == line[k]
                    && cells_of(rows[row as int].take(j)) == column
        }),
{
    lemma_rows_grow(line, k + 1, line.len() as int, width);
    assert(line.take(line.len() as int) =~= line);
    assert(line.take(k + 1).drop_last() =~= line.take(k));
    let (row, column) = caret_at(line, k, width);
    let state = row_wrapping(line.take(k + 1), width);
    let before = row_wrapping(line.take(k), width);
    let rows = row_wrapped(line, width);
    let own = rows[row as int];
    let j = state.current.len() - 1;
    assert(state.rows.len() == row);
    assert(own.take(state.current.len() as int)[j] == line[k]);
    assert(own.take(j) =~= own.take(state.current.len() as int).take(j));
    if breaks_row(before, line[k], width) {
        assert(state.current.take(j) =~= Seq::<char>::empty());
        assert(cells_of(own.take(j)) == 0);
    } else {
        assert(state.current.take(j) =~= before.current);
    }
    assert(own[j] == line[k]);
}

/// The cursor is always on screen: its row is one of those that are shown.
pub proof fn the_cursor_stays_on_screen(row: nat, visible: nat)
    requires
        visible > 0,
    ensures
        first_row(row, visible) <= row,
        row - first_row(row, visible) < visible,
{
}

} // verus!

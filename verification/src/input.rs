//! The multi-line prompt editor.
//!
//! Lines are held with a `(row, column)` cursor measured in characters. Bytes would put the
//! cursor inside a codepoint the first time someone pastes a path with an accent in it. The
//! terminal is told where the cursor is in cells instead: see [`InputBox::cursor_display`].

use vstd::prelude::*;
use crate::cells;
use crate::cells::text_cells;
use crate::text;
use crate::text::{joined, lines_of, texts, white_space};

verus! {

/// A multi-line text buffer with a cursor.
#[derive(Debug, PartialEq, Eq)]
pub struct InputBox {
    lines: Vec<String>,
    row: usize,
    column: usize,
}

/// What a buffer holds: its lines, of which there is always one, and where its cursor is.
pub struct InputView {
    pub lines: Seq<Seq<char>>,
    pub row: int,
    pub column: int,
}

impl View for InputBox {
    type V = InputView;

    closed spec fn view(&self) -> InputView {
        InputView {
            lines: if self.lines.len() == 0 {
                seq![Seq::empty()]
            } else {
                texts(self.lines@)
            },
            row: self.row as int,
            column: self.column as int,
        }
    }
}

impl InputView {
    /// Whether the cursor stands in the text.
    pub open spec fn valid(self) -> bool {
        &&& 0 <= self.row < self.lines.len()
        &&& 0 <= self.column <= self.lines[self.row].len()
    }

    /// An empty buffer.
    pub open spec fn blank() -> InputView {
        InputView { lines: seq![Seq::empty()], row: 0, column: 0 }
    }

    /// The line that the cursor is on.
    pub open spec fn line(self) -> Seq<char> {
        self.lines[self.row]
    }

    /// What stands before the cursor on its line.
    pub open spec fn head(self) -> Seq<char> {
        self.line().take(self.column)
    }

    /// What stands behind the cursor on its line.
    pub open spec fn tail(self) -> Seq<char> {
        self.line().skip(self.column)
    }

    /// The whole text.
    pub open spec fn text(self) -> Seq<char> {
        joined(self.lines, "\n"@)
    }

    /// The buffer with the cursor's line replaced by `before` and `after`, and the cursor
    /// between them.
    pub open spec fn with_line(self, before: Seq<char>, after: Seq<char>) -> InputView {
        InputView {
            lines: self.lines.update(self.row, before + after),
            row: self.row,
            column: before.len() as int,
        }
    }

    /// The buffer with the cursor moved.
    pub open spec fn at(self, row: int, column: int) -> InputView {
        InputView { lines: self.lines, row, column }
    }

    /// The buffer with a run of text without line breaks inserted.
    pub open spec fn inserted(self, run: Seq<char>) -> InputView {
        self.with_line(self.head() + run, self.tail())
    }

    /// The buffer with the characters `from` to `to` of its line replaced.
    pub open spec fn replaced(self, from: int, to: int, with: Seq<char>) -> InputView {
        self.with_line(self.line().take(from) + with, self.line().skip(to))
    }

    /// The buffer with its line broken at the cursor.
    pub open spec fn broken(self) -> InputView {
        InputView {
            lines: self.lines.take(self.row) + seq![self.head(), self.tail()] + self.lines.skip(
                self.row + 1,
            ),
            row: self.row + 1,
            column: 0,
        }
    }

    /// The buffer with the line at `row` and the one behind it made one.
    pub open spec fn merged(self, row: int) -> InputView {
        InputView {
            lines: self.lines.take(row) + seq![self.lines[row] + self.lines[row + 1]]
                + self.lines.skip(row + 2),
            row,
            column: self.lines[row].len() as int,
        }
    }

    /// The buffer with the character before the cursor, or the line break there, removed.
    pub open spec fn backspaced(self) -> InputView {
        if self.column > 0 {
            self.with_line(self.head().drop_last(), self.tail())
        } else if self.row > 0 {
            self.merged(self.row - 1)
        } else {
            self
        }
    }

    /// The buffer with the character behind the cursor, or the line break there, removed.
    pub open spec fn deleted(self) -> InputView {
        if self.column < self.line().len() {
            self.with_line(self.head(), self.tail().drop_first())
        } else if self.row + 1 < self.lines.len() {
            self.merged(self.row)
        } else {
            self
        }
    }

    /// The cursor one place to the left, over line breaks.
    pub open spec fn left(self) -> InputView {
        if self.column > 0 {
            self.at(self.row, self.column - 1)
        } else if self.row > 0 {
            self.at(self.row - 1, self.lines[self.row - 1].len() as int)
        } else {
            self
        }
    }

    /// The cursor one place to the right, over line breaks.
    pub open spec fn right(self) -> InputView {
        if self.column < self.line().len() {
            self.at(self.row, self.column + 1)
        } else if self.row + 1 < self.lines.len() {
            self.at(self.row + 1, 0)
        } else {
            self
        }
    }

    /// The cursor on another line, as far to the right as it was and the line allows.
    pub open spec fn on_row(self, row: int) -> InputView {
        let len = self.lines[row].len() as int;
        self.at(
            row,
            if self.column < len {
                self.column
            } else {
                len
            },
        )
    }
}

/// What is left of a text once its last word, and the white space behind it, are removed.
pub open spec fn without_last_word(s: Seq<char>) -> Seq<char> {
    word_trimmed(text::trimmed_end(s))
}

/// What is left of a text once the run of visible characters at its end is removed.
pub open spec fn word_trimmed(s: Seq<char>) -> Seq<char>
    decreases s.len(),
{
    if s.len() > 0 && !white_space(s.last()) {
        word_trimmed(s.drop_last())
    } else {
        s
    }
}

/// The buffer with pasted text inserted from its character `at` on: each line break in it,
/// of whatever kind, breaks the line.
pub open spec fn pasted(view: InputView, paste: Seq<char>, at: int) -> InputView
    decreases paste.len() - at,
{
    if at < 0 || at >= paste.len() {
        view
    } else if paste[at] == '\r' && at + 1 < paste.len() && paste[at + 1] == '\n' {
        pasted(view.broken(), paste, at + 2)
    } else if paste[at] == '\r' || paste[at] == '\n' {
        pasted(view.broken(), paste, at + 1)
    } else {
        pasted(view.inserted(seq![paste[at]]), paste, at + 1)
    }
}

/// The buffer that holds `text`, its cursor at the end.
pub open spec fn holding(text: Seq<char>) -> InputView {
    let own = lines_of(text);
    let lines = if own.len() == 0 || (text.len() > 0 && text.last() == '\n') {
        own.push(Seq::empty())
    } else {
        own
    };
    InputView { lines, row: lines.len() - 1, column: lines.last().len() as int }
}

impl Default for InputBox {
    fn default() -> (r: InputBox)
        ensures
            r@ == InputView::blank(),
            r@.valid(),
    {
        InputBox { lines: Vec::new(), row: 0, column: 0 }
    }
}

impl InputBox {
    #[verifier::type_invariant]
    closed spec fn cursor_stands_in_the_text(self) -> bool {
        self@.valid()
    }

    /// Takes everything out, and leaves an empty buffer.
    fn take_out(&mut self) -> (r: (Vec<String>, usize, usize))
        ensures
            final(self)@ == InputView::blank(),
            r.0@ == old(self).lines@,
            r.1 == old(self).row,
            r.2 == old(self).column,
    {
        let mut other = InputBox::default();
        core::mem::swap(self, &mut other);
        let InputBox { lines, row, column } = other;
        (lines, row, column)
    }

    /// The lines, of which there is always one.
    pub fn lines(&self) -> (r: Vec<String>)
        ensures
            texts(r@) == self@.lines,
            self@.valid(),
    {
        proof {
            use_type_invariant(self);
        }
        let mut r: Vec<String> = Vec::new();
        if self.lines.len() == 0 {
            r.push(String::new());
            assert(texts(r@) =~= seq![Seq::<char>::empty()]);
            return r;
        }
        let mut i: usize = 0;
        while i < self.lines.len()
            invariant
                i <= self.lines.len(),
                r.len() == i,
                forall|k: int| 0 <= k < i ==> (#[trigger] r@[k])@ == self.lines@[k]@,
            decreases self.lines.len() - i,
        {
            r.push(self.lines[i].clone());
            i += 1;
        }
        assert(texts(r@) =~= texts(self.lines@));
        r
    }

    /// Cursor as `(row, column)` in characters.
    pub fn cursor(&self) -> (r: (usize, usize))
        ensures
            r.0 == self@.row,
            r.1 == self@.column,
            self@.valid(),
    {
        proof {
            use_type_invariant(self);
        }
        (self.row, self.column)
    }

    /// The characters of the cursor's line.
    fn chars(&self) -> (r: Vec<char>)
        ensures
            r@ == self@.line(),
    {
        proof {
            use_type_invariant(self);
        }
        if self.row < self.lines.len() {
            assert(texts(self.lines@)[self.row as int] == self.lines@[self.row as int]@);
            text::to_chars(self.lines[self.row].as_str())
        } else {
            Vec::new()
        }
    }

    /// Cursor as `(row, column)` in terminal cells.
    ///
    /// A cell is not a character: a CJK character is one character and two cells wide, so a
    /// cursor placed by character index lands inside the text rather than after it. The
    /// terminal draws in cells, so the position handed to it is measured in cells.
    pub fn cursor_display(&self) -> (r: (usize, usize))
        ensures
            r.0 == self@.row,
            r.1 == text_cells(self@.head()),
    {
        proof {
            use_type_invariant(self);
        }
        let line = self.chars();
        let head = text::from_chars(&line, 0, self.column);
        assert(line@.subrange(0, self.column as int) =~= self@.head());
        (self.row, cells::text_width(head.as_str()))
    }

    /// Replaces the cursor's line by `before` and `after`, the cursor between them.
    fn put(&mut self, before: &Vec<char>, after: &Vec<char>, from: usize)
        requires
            from <= after.len(),
        ensures
            final(self)@ == old(self)@.with_line(before@, after@.skip(from as int)),
            final(self)@.valid(),
    {
        proof {
            use_type_invariant(&*self);
        }
        let ghost view = self@;
        let (mut lines, row, _) = self.take_out();
        if lines.len() == 0 {
            lines.push(String::new());
            assert(texts(lines@) =~= seq![Seq::<char>::empty()]);
        }
        let head = text::from_chars(before, 0, before.len());
        let tail = text::from_chars(after, from, after.len());
        let line = text::concat(head.as_str(), tail.as_str());
        proof {
            assert(before@.subrange(0, before.len() as int) =~= before@);
            assert(after@.subrange(from as int, after.len() as int) =~= after@.skip(from as int));
        }
        lines.set(row, line);
        assert(texts(lines@) =~= view.lines.update(row as int, line@));
        *self = InputBox { lines, row, column: before.len() };
    }

    /// Inserts pasted text, honouring the newlines in it.
    ///
    /// A paste is one edit, not a key per character: "\r\n" and a lone "\r" both mean a line
    /// break here, never a submit.
    pub fn insert_str(&mut self, paste: &str)
        ensures
            final(self)@ == pasted(old(self)@, paste@, 0),
            final(self)@.valid(),
    {
        proof {
            use_type_invariant(&*self);
        }
        let v = text::to_chars(paste);
        let ghost whole = pasted(self@, paste@, 0);
        let mut i: usize = 0;
        while i < v.len()
            invariant
                i <= v.len(),
                v@ == paste@,
                self@.valid(),
                whole == pasted(self@, paste@, i as int),
            decreases v.len() - i,
        {
            let ch = v[i];
            if ch == '\r' && i + 1 < v.len() && v[i + 1] == '\n' {
                self.insert_newline();
                i += 2;
            } else if ch == '\r' || ch == '\n' {
                self.insert_newline();
                i += 1;
            } else {
                self.insert_char(ch);
                i += 1;
            }
        }
    }

    /// The whole text.
    pub fn text(&self) -> (r: String)
        ensures
            r@ == self@.text(),
    {
        proof {
            use_type_invariant(self);
        }
        proof {
            if self.lines.len() == 0 {
                assert(texts(self.lines@) =~= Seq::<Seq<char>>::empty());
            }
        }
        text::join(&self.lines, "\n")
    }

    /// Whether nothing is typed.
    pub fn is_empty(&self) -> (r: bool)
        ensures
            r == forall|i: int| 0 <= i < self@.lines.len() ==> #[trigger] self@.lines[i].len() == 0,
    {
        proof {
            use_type_invariant(self);
        }
        let mut i: usize = 0;
        while i < self.lines.len()
            invariant
                i <= self.lines.len(),
                forall|k: int| 0 <= k < i ==> (#[trigger] self.lines@[k])@.len() == 0,
            decreases self.lines.len() - i,
        {
            if self.lines[i].as_str().unicode_len() != 0 {
                assert(self@.lines[i as int].len() != 0);
                return false;
            }
            i += 1;
        }
        true
    }

    /// Inserts one character at the cursor.
    pub fn insert_char(&mut self, ch: char)
        ensures
            final(self)@ == old(self)@.inserted(seq![ch]),
            final(self)@.valid(),
    {
        proof {
            use_type_invariant(&*self);
        }
        let line = self.chars();
        let mut before = copy_prefix(&line, self.column);
        before.push(ch);
        assert(before@ =~= self@.head() + seq![ch]);
        let from: usize = self.column;
        self.put(&before, &line, from);
    }

    /// Breaks the line at the cursor.
    pub fn insert_newline(&mut self)
        ensures
            final(self)@ == old(self)@.broken(),
            final(self)@.valid(),
    {
        proof {
            use_type_invariant(&*self);
        }
        let ghost view = self@;
        let line = self.chars();
        let (mut lines, row, column) = self.take_out();
        if lines.len() == 0 {
            lines.push(String::new());
            assert(texts(lines@) =~= seq![Seq::<char>::empty()]);
        }
        assert(texts(lines@) == view.lines);
        let head = text::from_chars(&line, 0, column);
        let tail = text::from_chars(&line, column, line.len());
        proof {
            assert(line@.subrange(0, column as int) =~= view.head());
            assert(line@.subrange(column as int, line.len() as int) =~= view.tail());
        }
        lines.set(row, head);
        lines.insert(row + 1, tail);
        assert(texts(lines@) =~= view.broken().lines);
        *self = InputBox { lines, row: row + 1, column: 0 };
    }

    /// Makes the line at `row` and the one behind it one, the cursor where they meet.
    fn merge(&mut self, row: usize)
        requires
            row + 1 < old(self)@.lines.len(),
        ensures
            final(self)@ == old(self)@.merged(row as int),
            final(self)@.valid(),
    {
        proof {
            use_type_invariant(&*self);
        }
        let ghost view = self@;
        assert(view.lines == texts(self.lines@));
        let (mut lines, _, _) = self.take_out();
        let tail = lines.remove(row + 1);
        let column: usize = lines[row].as_str().unicode_len();
        let line = text::concat(lines[row].as_str(), tail.as_str());
        lines.set(row, line);
        assert(texts(lines@) =~= view.merged(row as int).lines);
        *self = InputBox { lines, row, column };
    }

    /// Removes the character before the cursor, or the line break there.
    pub fn backspace(&mut self)
        ensures
            final(self)@ == old(self)@.backspaced(),
            final(self)@.valid(),
    {
        proof {
            use_type_invariant(&*self);
        }
        if self.column > 0 {
            let line = self.chars();
            let before = copy_prefix(&line, self.column - 1);
            assert(before@ =~= self@.head().drop_last());
            let from: usize = self.column;
            self.put(&before, &line, from);
        } else if self.row > 0 {
            let row: usize = self.row - 1;
            self.merge(row);
        }
    }

    /// Removes the character behind the cursor, or the line break there.
    pub fn delete(&mut self)
        ensures
            final(self)@ == old(self)@.deleted(),
            final(self)@.valid(),
    {
        proof {
            use_type_invariant(&*self);
        }
        let line = self.chars();
        if self.column < line.len() {
            let before = copy_prefix(&line, self.column);
            assert(before@ =~= self@.head());
            assert(line@.skip(self.column as int + 1) =~= self@.tail().drop_first());
            let from: usize = self.column + 1;
            self.put(&before, &line, from);
        } else if self.row + 1 < self.lines.len() {
            let row: usize = self.row;
            self.merge(row);
        }
    }

    pub fn move_left(&mut self)
        ensures
            final(self)@ == old(self)@.left(),
            final(self)@.valid(),
    {
        proof {
            use_type_invariant(&*self);
        }
        if self.column > 0 {
            self.column = self.column - 1;
        } else if self.row > 0 {
            self.row = self.row - 1;
            assert(texts(self.lines@)[self.row as int] == self.lines@[self.row as int]@);
            let len: usize = self.lines[self.row].as_str().unicode_len();
            self.column = len;
        }
    }

    pub fn move_right(&mut self)
        ensures
            final(self)@ == old(self)@.right(),
            final(self)@.valid(),
    {
        proof {
            use_type_invariant(&*self);
        }
        let line = self.chars();
        if self.column < line.len() {
            self.column = self.column + 1;
        } else if self.row + 1 < self.lines.len() {
            self.column = 0;
            self.row = self.row + 1;
        }
    }

    /// Puts the cursor on `row`, as far to the right as it was and the line allows.
    fn go_to_row(&mut self, row: usize)
        requires
            row < old(self)@.lines.len(),
            old(self)@.lines.len() > 1,
        ensures
            final(self)@ == old(self)@.on_row(row as int),
            final(self)@.valid(),
    {
        proof {
            use_type_invariant(&*self);
        }
        assert(texts(self.lines@)[row as int] == self.lines@[row as int]@);
        let len: usize = self.lines[row].as_str().unicode_len();
        if self.column >= len {
            self.column = len;
        }
        self.row = row;
    }

    pub fn move_up(&mut self)
        ensures
            final(self)@ == (if old(self)@.row > 0 {
                old(self)@.on_row(old(self)@.row - 1)
            } else {
                old(self)@
            }),
            final(self)@.valid(),
    {
        proof {
            use_type_invariant(&*self);
        }
        if self.row > 0 {
            let row: usize = self.row - 1;
            self.go_to_row(row);
        }
    }

    pub fn move_down(&mut self)
        ensures
            final(self)@ == (if old(self)@.row + 1 < old(self)@.lines.len() {
                old(self)@.on_row(old(self)@.row + 1)
            } else {
                old(self)@
            }),
            final(self)@.valid(),
    {
        proof {
            use_type_invariant(&*self);
        }
        if self.row + 1 < self.lines.len() {
            let row: usize = self.row + 1;
            self.go_to_row(row);
        }
    }

    pub fn move_home(&mut self)
        ensures
            final(self)@ == old(self)@.at(old(self)@.row, 0),
            final(self)@.valid(),
    {
        proof {
            use_type_invariant(&*self);
        }
        self.column = 0;
    }

    pub fn move_end(&mut self)
        ensures
            final(self)@ == old(self)@.at(old(self)@.row, old(self)@.line().len() as int),
            final(self)@.valid(),
    {
        proof {
            use_type_invariant(&*self);
        }
        let line = self.chars();
        self.column = line.len();
    }

    /// Deletes from the cursor back to the start of the line.
    pub fn kill_to_start(&mut self)
        ensures
            final(self)@ == old(self)@.with_line(Seq::empty(), old(self)@.tail()),
            final(self)@.valid(),
    {
        proof {
            use_type_invariant(&*self);
        }
        let line = self.chars();
        let before: Vec<char> = Vec::new();
        let from: usize = self.column;
        self.put(&before, &line, from);
    }

    /// Deletes from the cursor to the end of the line.
    pub fn kill_to_end(&mut self)
        ensures
            final(self)@ == old(self)@.with_line(old(self)@.head(), Seq::empty()),
            final(self)@.valid(),
    {
        proof {
            use_type_invariant(&*self);
        }
        let line = self.chars();
        let before = copy_prefix(&line, self.column);
        assert(before@ =~= self@.head());
        assert(line@.skip(line.len() as int) =~= Seq::<char>::empty());
        let from: usize = line.len();
        self.put(&before, &line, from);
    }

    /// Deletes the word before the cursor, along with the spaces leading to it.
    ///
    /// White space first, then the word: Ctrl-W at the end of `git commit ` has to eat
    /// `commit`, not just the trailing space.
    pub fn delete_word_before(&mut self)
        ensures
            final(self)@ == old(self)@.with_line(
                without_last_word(old(self)@.head()),
                old(self)@.tail(),
            ),
            final(self)@.valid(),
    {
        proof {
            use_type_invariant(&*self);
        }
        let ghost view = self@;
        let line = self.chars();
        let mut n: usize = self.column;
        assert(line@.take(n as int) =~= view.head());
        while n > 0 && text::is_white_space(line[n - 1])
            invariant
                n <= line.len(),
                text::trimmed_end(view.head()) == text::trimmed_end(line@.take(n as int)),
            decreases n,
        {
            assert(line@.take(n as int).drop_last() =~= line@.take(n as int - 1));
            n -= 1;
        }
        assert(text::trimmed_end(view.head()) == line@.take(n as int));
        while n > 0 && !text::is_white_space(line[n - 1])
            invariant
                n <= line.len(),
                without_last_word(view.head()) == word_trimmed(line@.take(n as int)),
            decreases n,
        {
            assert(line@.take(n as int).drop_last() =~= line@.take(n as int - 1));
            n -= 1;
        }
        let before = copy_prefix(&line, n);
        assert(before@ =~= line@.take(n as int));
        let from: usize = self.column;
        self.put(&before, &line, from);
    }

    /// Takes the text and resets, so a submitted prompt cannot be sent twice.
    pub fn take(&mut self) -> (r: String)
        ensures
            r@ == old(self)@.text(),
            final(self)@ == InputView::blank(),
            final(self)@.valid(),
    {
        proof {
            use_type_invariant(&*self);
        }
        let text = self.text();
        self.clear();
        text
    }

    /// Replaces the whole buffer and puts the cursor at the end, where somebody recalling a
    /// past prompt expects to carry on typing from.
    pub fn set_text(&mut self, text: &str)
        ensures
            final(self)@ == holding(text@),
            final(self)@.valid(),
    {
        proof {
            use_type_invariant(&*self);
        }
        let mut lines = text::lines(text);
        let ghost own = texts(lines@);
        let n: usize = text.unicode_len();
        if lines.len() == 0 || (n > 0 && text.get_char(n - 1) == '\n') {
            lines.push(String::new());
            assert(texts(lines@) =~= own.push(Seq::empty()));
        }
        let row: usize = lines.len() - 1;
        assert(texts(lines@)[row as int] == lines@[row as int]@);
        let column: usize = lines[row].as_str().unicode_len();
        *self = InputBox { lines, row, column };
    }

    /// Replaces the characters `from` to `to` of the cursor's line, and puts the cursor behind what
    /// stands there now.
    pub fn replace_line_range(&mut self, from: usize, to: usize, with: &str)
        requires
            from <= to <= old(self)@.line().len(),
        ensures
            final(self)@ == old(self)@.replaced(from as int, to as int, with@),
            final(self)@.valid(),
    {
        proof {
            use_type_invariant(&*self);
        }
        let line = self.chars();
        let mut before = copy_prefix(&line, from);
        let ghost head = before@;
        let mut added = text::to_chars(with);
        before.append(&mut added);
        assert(before@ =~= head + with@);
        self.put(&before, &line, to);
    }

    /// How many lines the buffer holds, counting an empty buffer as one.
    pub fn rows(&self) -> (r: usize)
        ensures
            r == self@.lines.len(),
    {
        proof {
            use_type_invariant(self);
        }
        if self.lines.len() == 0 {
            1
        } else {
            self.lines.len()
        }
    }

    /// Empties the buffer.
    pub fn clear(&mut self)
        ensures
            final(self)@ == InputView::blank(),
            final(self)@.valid(),
    {
        proof {
            use_type_invariant(&*self);
        }
        *self = InputBox::default();
    }
}

/// The first `n` characters of `v`.
fn copy_prefix(v: &Vec<char>, n: usize) -> (r: Vec<char>)
    requires
        n <= v.len(),
    ensures
        r@ == v@.take(n as int),
{
    let mut r: Vec<char> = Vec::new();
    let mut i: usize = 0;
    while i < n
        invariant
            i <= n <= v.len(),
            r@ == v@.take(i as int),
        decreases n - i,
    {
        r.push(v[i]);
        assert(v@.take(i as int + 1) =~= v@.take(i as int).push(v@[i as int]));
        i += 1;
    }
    r
}

// Laws.

/// A character that is typed and taken back leaves the buffer as it was.
pub proof fn backspace_undoes_typing(view: InputView, ch: char)
    requires
        view.valid(),
    ensures
        view.inserted(seq![ch]).valid(),
        view.inserted(seq![ch]).backspaced() == view,
{
    let typed = view.inserted(seq![ch]);
    assert(typed.head() =~= view.head() + seq![ch]);
    assert(typed.head().drop_last() =~= view.head());
    assert(typed.tail() =~= view.tail());
    assert(view.head() + view.tail() =~= view.line());
    assert(typed.backspaced().lines =~= view.lines);
}

/// A line that is broken and joined again leaves the buffer as it was.
pub proof fn backspace_undoes_a_line_break(view: InputView)
    requires
        view.valid(),
    ensures
        view.broken().valid(),
        view.broken().backspaced() == view,
{
    let broken = view.broken();
    assert(view.head() + view.tail() =~= view.line());
    assert(broken.lines[view.row] == view.head());
    assert(broken.lines[view.row + 1] == view.tail());
    assert(broken.backspaced().lines =~= view.lines);
}

/// Deleting undoes a step to the left and typing, the other way round: what is typed and
/// stepped over is deleted again.
pub proof fn delete_undoes_typing_and_stepping_back(view: InputView, ch: char)
    requires
        view.valid(),
    ensures
        view.inserted(seq![ch]).left().deleted() == view,
{
    let typed = view.inserted(seq![ch]);
    let stepped = typed.left();
    assert(typed.line() =~= view.head() + seq![ch] + view.tail());
    assert(stepped.head() =~= view.head());
    assert(stepped.tail() =~= seq![ch] + view.tail());
    assert(stepped.tail().drop_first() =~= view.tail());
    assert(view.head() + view.tail() =~= view.line());
    assert(stepped.deleted().lines =~= view.lines);
}

/// A step to the right undoes one to the left.
pub proof fn right_undoes_left(view: InputView)
    requires
        view.valid(),
        view.row > 0 || view.column > 0,
    ensures
        view.left().valid(),
        view.left().right() == view,
{
}

/// Whether a text holds no line break.
pub open spec fn unbroken(s: Seq<char>) -> bool {
    forall|i: int| 0 <= i < s.len() ==> s[i] != '\n' && s[i] != '\r'
}

/// A paste without line breaks lands as one run.
pub proof fn a_paste_without_breaks_is_one_run(view: InputView, paste: Seq<char>)
    requires
        view.valid(),
        unbroken(paste),
    ensures
        pasted(view, paste, 0) == view.inserted(paste),
{
    assert(view.inserted(paste.take(0)) == view) by {
        assert(paste.take(0) =~= Seq::<char>::empty());
        assert(view.head() + Seq::<char>::empty() =~= view.head());
        assert(view.head() + view.tail() =~= view.line());
        assert(view.inserted(paste.take(0)).lines =~= view.lines);
    }
    lemma_paste_run(view, paste, 0);
}

proof fn lemma_paste_run(view: InputView, paste: Seq<char>, at: int)
    requires
        view.valid(),
        unbroken(paste),
        0 <= at <= paste.len(),
    ensures
        pasted(view.inserted(paste.take(at)), paste, at) == view.inserted(paste),
    decreases paste.len() - at,
{
    if at == paste.len() {
        assert(paste.take(at) =~= paste);
    } else {
        let so_far = view.inserted(paste.take(at));
        assert(so_far.head() =~= view.head() + paste.take(at));
        assert(so_far.tail() =~= view.tail());
        assert(paste.take(at + 1) =~= paste.take(at) + seq![paste[at]]);
        assert(view.head() + paste.take(at) + seq![paste[at]] =~= view.head() + paste.take(
            at + 1,
        ));
        assert(so_far.inserted(seq![paste[at]]).lines =~= view.inserted(paste.take(at + 1)).lines);
        lemma_paste_run(view, paste, at + 1);
    }
}

/// A buffer holds the text it was given, where no carriage return ends a line of it.
pub proof fn a_recalled_text_reads_back(s: Seq<char>)
    requires
        !s.contains('\r'),
    ensures
        holding(s).valid(),
        holding(s).text() == s,
{
    reveal_strlit("\n");
    assert("\n"@ =~= seq!['\n']);
    let pieces = text::split_on(s, '\n');
    text::lemma_split_nonempty(s, '\n');
    crate::paths::lemma_join_undoes_split(s, '\n');
    lemma_pieces_of(s, '\n', '\r');
    let ended = pieces.drop_last().map_values(|p: Seq<char>| text::without_cr(p));
    assert(ended =~= pieces.drop_last()) by {
        assert forall|i: int| 0 <= i < ended.len() implies ended[i] == pieces.drop_last()[i] by {
            let piece = pieces[i];
            assert(!piece.contains('\r'));
            if piece.len() > 0 {
                assert(piece.contains(piece.last()));
            }
        }
    }
    lemma_last_piece(s, '\n');
    if s.len() == 0 {
        assert(lines_of(s).len() == 0);
    }
    assert(holding(s).lines =~= pieces);
}

/// A piece of a text holds only characters of it.
proof fn lemma_pieces_of(s: Seq<char>, sep: char, c: char)
    requires
        !s.contains(c),
    ensures
        forall|i: int|
            0 <= i < text::split_on(s, sep).len() ==> !(#[trigger] text::split_on(
                s,
                sep,
            )[i]).contains(c),
    decreases s.len(),
{
    if s.len() > 0 {
        let init = s.drop_last();
        assert(!init.contains(c)) by {
            if init.contains(c) {
                let k = choose|k: int| 0 <= k < init.len() && init[k] == c;
                assert(s[k] == c);
            }
        }
        lemma_pieces_of(init, sep, c);
        text::lemma_split_nonempty(init, sep);
        let before = text::split_on(init, sep);
        let all = text::split_on(s, sep);
        assert(s[s.len() - 1] != c);
        assert forall|i: int| 0 <= i < all.len() implies !(#[trigger] all[i]).contains(c) by {
            if s.last() != sep && i == before.len() - 1 {
                let piece = before[i];
                assert(!piece.contains(c));
                assert(all[i] == piece.push(s.last()));
                if all[i].contains(c) {
                    let k = choose|k: int| 0 <= k < all[i].len() && all[i][k] == c;
                    assert(k < piece.len());
                    assert(piece[k] == c);
                }
            } else if i < before.len() {
                assert(all[i] == before[i]);
            }
        }
    }
}

/// A text ends with the separator where its last piece is empty.
proof fn lemma_last_piece(s: Seq<char>, sep: char)
    ensures
        (text::split_on(s, sep).last().len() == 0) == (s.len() == 0 || s.last() == sep),
        s.len() == 0 ==> text::split_on(s, sep).len() == 1,
{
    if s.len() > 0 {
        text::lemma_split_nonempty(s.drop_last(), sep);
    }
}

/// What stands above a row, with the breaks that end its lines.
pub open spec fn above(lines: Seq<Seq<char>>, row: int) -> Seq<char> {
    lines.take(row).map_values(|line: Seq<char>| line.push('\n')).flatten()
}

/// What stands below a row, with the breaks that begin its lines.
pub open spec fn below(lines: Seq<Seq<char>>, row: int) -> Seq<char> {
    lines.skip(row + 1).map_values(|line: Seq<char>| seq!['\n'] + line).flatten()
}

impl InputView {
    /// Where the cursor stands in the whole text.
    pub open spec fn place(self) -> int {
        above(self.lines, self.row).len() + self.column
    }
}

/// The text of some lines is what stands above a row, the row, and what stands below it.
proof fn lemma_text(lines: Seq<Seq<char>>, row: int)
    requires
        0 <= row < lines.len(),
    ensures
        joined(lines, "\n"@) == above(lines, row) + lines[row] + below(lines, row),
    decreases lines.len(),
{
    let ended = |line: Seq<char>| line.push('\n');
    let begun = |line: Seq<char>| seq!['\n'] + line;
    reveal_strlit("\n");
    assert("\n"@ =~= seq!['\n']);
    let init = lines.drop_last();
    let n = lines.len() - 1;
    let last = lines[n];
    if row == n {
        assert(lines.skip(row + 1).map_values(begun) =~= Seq::empty());
        assert(lines.take(row) =~= init);
        if init.len() > 0 {
            lemma_text_above(init);
            assert(joined(lines, "\n"@) =~= above(lines, row) + lines[row] + below(lines, row));
        } else {
            assert(init.map_values(ended) =~= Seq::empty());
            assert(joined(lines, "\n"@) =~= above(lines, row) + lines[row] + below(lines, row));
        }
    } else {
        lemma_text(init, row);
        assert(lines.take(row) =~= init.take(row));
        assert(lines.skip(row + 1).map_values(begun) =~= init.skip(row + 1).map_values(begun).push(
            begun(last),
        ));
        init.skip(row + 1).map_values(begun).lemma_flatten_push(begun(last));
        assert(joined(lines, "\n"@) =~= above(lines, row) + lines[row] + below(lines, row));
    }
}

proof fn lemma_text_above(lines: Seq<Seq<char>>)
    requires
        lines.len() > 0,
        "\n"@ == seq!['\n'],
    ensures
        joined(lines, "\n"@) + seq!['\n'] == lines.map_values(
            |line: Seq<char>| line.push('\n'),
        ).flatten(),
    decreases lines.len(),
{
    let ended = |line: Seq<char>| line.push('\n');
    let init = lines.drop_last();
    let last = lines[lines.len() - 1];
    assert(lines.map_values(ended) =~= init.map_values(ended).push(ended(last)));
    init.map_values(ended).lemma_flatten_push(ended(last));
    if init.len() > 0 {
        lemma_text_above(init);
    } else {
        assert(init.map_values(ended) =~= Seq::empty());
    }
    assert(joined(lines, "\n"@) + seq!['\n'] =~= lines.map_values(ended).flatten());
}

/// A buffer whose cursor's line was replaced.
proof fn lemma_with_line(view: InputView, before: Seq<char>, after: Seq<char>)
    requires
        view.valid(),
    ensures
        view.with_line(before, after).text() == above(view.lines, view.row) + before + after + below(
            view.lines,
            view.row,
        ),
        view.with_line(before, after).place() == above(view.lines, view.row).len() + before.len(),
        view.text() == above(view.lines, view.row) + view.line() + below(view.lines, view.row),
{
    let next = view.with_line(before, after);
    lemma_text(view.lines, view.row);
    lemma_text(next.lines, view.row);
    assert(next.lines.take(view.row) =~= view.lines.take(view.row));
    assert(next.lines.skip(view.row + 1) =~= view.lines.skip(view.row + 1));
    assert(next.text() =~= above(view.lines, view.row) + before + after + below(
        view.lines,
        view.row,
    ));
}

/// Typing puts what is typed at the cursor and moves the cursor behind it; everything else of the
/// text stays.
pub proof fn typing_lands_at_the_cursor(view: InputView, run: Seq<char>)
    requires
        view.valid(),
    ensures
        view.inserted(run).text() == view.text().take(view.place()) + run + view.text().skip(
            view.place(),
        ),
        view.inserted(run).place() == view.place() + run.len(),
        0 <= view.place() <= view.text().len(),
{
    lemma_with_line(view, view.head() + run, view.tail());
    let text = view.text();
    assert(view.line() =~= view.head() + view.tail());
    assert(text.take(view.place()) =~= above(view.lines, view.row) + view.head());
    assert(text.skip(view.place()) =~= view.tail() + below(view.lines, view.row));
    assert(view.inserted(run).text() =~= text.take(view.place()) + run + text.skip(view.place()));
}

/// Breaking a line puts a line feed at the cursor, and moves the cursor behind it.
pub proof fn a_break_lands_at_the_cursor(view: InputView)
    requires
        view.valid(),
    ensures
        view.broken().text() == view.text().take(view.place()) + seq!['\n'] + view.text().skip(
            view.place(),
        ),
        view.broken().place() == view.place() + 1,
        view.broken().lines.len() == view.lines.len() + 1,
{
    let next = view.broken();
    let ended = |line: Seq<char>| line.push('\n');
    lemma_text(view.lines, view.row);
    lemma_text(next.lines, next.row);
    let text = view.text();
    assert(view.line() =~= view.head() + view.tail());
    assert(next.lines.take(next.row).map_values(ended) =~= view.lines.take(view.row).map_values(
        ended,
    ).push(ended(view.head())));
    view.lines.take(view.row).map_values(ended).lemma_flatten_push(ended(view.head()));
    assert(next.lines.skip(next.row + 1) =~= view.lines.skip(view.row + 1));
    assert(text.take(view.place()) =~= above(view.lines, view.row) + view.head());
    assert(text.skip(view.place()) =~= view.tail() + below(view.lines, view.row));
    assert(next.text() =~= text.take(view.place()) + seq!['\n'] + text.skip(view.place()));
}

/// Two lines made one.
proof fn lemma_merged(view: InputView, row: int)
    requires
        0 <= row,
        row + 1 < view.lines.len(),
    ensures
        ({
            let p = above(view.lines, row).len() as int + view.lines[row].len();
            &&& p < view.text().len()
            &&& view.merged(row).text() == view.text().take(p) + view.text().skip(p + 1)
            &&& view.merged(row).place() == p
            &&& above(view.lines, row + 1).len() == p + 1
        }),
{
    let next = view.merged(row);
    let ended = |line: Seq<char>| line.push('\n');
    let begun = |line: Seq<char>| seq!['\n'] + line;
    lemma_text(view.lines, row);
    lemma_text(next.lines, row);
    let text = view.text();
    let p = above(view.lines, row).len() as int + view.lines[row].len();
    let rest = view.lines.skip(row + 2);
    assert(next.lines.take(row) =~= view.lines.take(row));
    assert(next.lines.skip(row + 1) =~= rest);
    assert(view.lines.skip(row + 1).map_values(begun) =~= seq![begun(view.lines[row + 1])]
        + rest.map_values(begun));
    assert(below(view.lines, row) =~= begun(view.lines[row + 1]) + rest.map_values(
        begun,
    ).flatten()) by {
        let all = view.lines.skip(row + 1).map_values(begun);
        assert(all.first() == begun(view.lines[row + 1]));
        assert(all.drop_first() =~= rest.map_values(begun));
    }
    assert(next.lines[row] == view.lines[row] + view.lines[row + 1]);
    assert(text.take(p) =~= above(view.lines, row) + view.lines[row]);
    assert(text.skip(p + 1) =~= view.lines[row + 1] + rest.map_values(begun).flatten());
    assert(next.text() =~= text.take(p) + text.skip(p + 1));
    assert(view.lines.take(row + 1).map_values(ended) =~= view.lines.take(row).map_values(
        ended,
    ).push(ended(view.lines[row])));
    view.lines.take(row).map_values(ended).lemma_flatten_push(ended(view.lines[row]));
}

/// Erasing takes away the one character before the cursor or the one behind it, a line break like
/// any other, and nothing else; where there is none it does nothing.
pub proof fn erasing_takes_one_character(view: InputView)
    requires
        view.valid(),
    ensures
        ({
            let p = view.place();
            &&& p > 0 ==> {
                &&& view.backspaced().text() == view.text().take(p - 1) + view.text().skip(p)
                &&& view.backspaced().place() == p - 1
            }
            &&& p == 0 ==> view.backspaced() == view
            &&& p < view.text().len() ==> {
                &&& view.deleted().text() == view.text().take(p) + view.text().skip(p + 1)
                &&& view.deleted().place() == p
            }
            &&& p == view.text().len() ==> view.deleted() == view
        }),
{
    let p = view.place();
    let text = view.text();
    let ended = |line: Seq<char>| line.push('\n');
    lemma_text(view.lines, view.row);
    assert(view.line() =~= view.head() + view.tail());
    assert(text.take(p) =~= above(view.lines, view.row) + view.head());
    assert(text.skip(p) =~= view.tail() + below(view.lines, view.row));
    if view.column > 0 {
        lemma_with_line(view, view.head().drop_last(), view.tail());
        assert(view.backspaced().text() =~= text.take(p - 1) + text.skip(p));
    } else if view.row > 0 {
        lemma_merged(view, view.row - 1);
    } else {
        assert(view.lines.take(0).map_values(ended) =~= Seq::empty());
    }
    if view.column < view.line().len() {
        lemma_with_line(view, view.head(), view.tail().drop_first());
        assert(view.deleted().text() =~= text.take(p) + text.skip(p + 1));
    } else if view.row + 1 < view.lines.len() {
        lemma_merged(view, view.row);
        assert(view.head() =~= view.line());
    } else {
        assert(view.lines.skip(view.row + 1).map_values(|line: Seq<char>| seq!['\n'] + line)
            =~= Seq::empty());
    }
}

/// A step moves the cursor by one character of the text, over line breaks too, and changes nothing;
/// at the ends of the text it stays.
pub proof fn a_step_moves_by_one_character(view: InputView)
    requires
        view.valid(),
    ensures
        view.left().lines == view.lines,
        view.right().lines == view.lines,
        view.place() > 0 ==> view.left().place() == view.place() - 1,
        view.place() == 0 ==> view.left() == view,
        view.place() < view.text().len() ==> view.right().place() == view.place() + 1,
        view.place() == view.text().len() ==> view.right() == view,
        view.left().valid(),
        view.right().valid(),
{
    let ended = |line: Seq<char>| line.push('\n');
    lemma_text(view.lines, view.row);
    if view.column == 0 && view.row > 0 {
        lemma_merged(view, view.row - 1);
    }
    if view.column == 0 && view.row == 0 {
        assert(view.lines.take(0).map_values(ended) =~= Seq::empty());
    }
    if view.column == view.line().len() {
        if view.row + 1 < view.lines.len() {
            lemma_merged(view, view.row);
        } else {
            assert(view.lines.skip(view.row + 1).map_values(|line: Seq<char>| seq!['\n'] + line)
                =~= Seq::empty());
        }
    }
}

/// A step up or down keeps the column as far as the line there allows, and changes nothing.
pub proof fn a_step_between_lines_keeps_the_column(view: InputView, row: int)
    requires
        view.valid(),
        0 <= row < view.lines.len(),
    ensures
        view.on_row(row).lines == view.lines,
        view.on_row(row).row == row,
        view.on_row(row).valid(),
        view.column <= view.lines[row].len() ==> view.on_row(row).column == view.column,
        view.column > view.lines[row].len() ==> view.on_row(row).column == view.lines[row].len(),
{
}

/// Deleting a word takes the white space before the cursor and the whole word before that, and
/// stops at the white space before it.
pub proof fn a_deleted_word_is_whole(s: Seq<char>) -> (n: int)
    ensures
        without_last_word(s).len() <= n <= s.len(),
        without_last_word(s) == s.take(without_last_word(s).len() as int),
        without_last_word(s).len() > 0 ==> white_space(without_last_word(s).last()),
        forall|k: int| n <= k < s.len() ==> white_space(#[trigger] s[k]),
        forall|k: int| without_last_word(s).len() <= k < n ==> !white_space(#[trigger] s[k]),
        n > 0 ==> !white_space(s[n - 1]),
{
    text::trimming_takes_the_white_ends(s);
    let kept = text::trimmed_end(s);
    lemma_word_trimmed(kept);
    let n = kept.len() as int;
    let left = without_last_word(s).len() as int;
    assert(s.take(left) =~= kept.take(left));
    assert forall|k: int| left <= k < n implies !white_space(#[trigger] s[k]) by {
        assert(kept[k] == s[k]);
    }
    if n > 0 {
        assert(kept.last() == s[n - 1]);
    }
    n
}

proof fn lemma_word_trimmed(s: Seq<char>)
    ensures
        word_trimmed(s).len() <= s.len(),
        word_trimmed(s) == s.take(word_trimmed(s).len() as int),
        word_trimmed(s).len() > 0 ==> white_space(word_trimmed(s).last()),
        forall|k: int| word_trimmed(s).len() <= k < s.len() ==> !white_space(#[trigger] s[k]),
    decreases s.len(),
{
    if s.len() > 0 && !white_space(s.last()) {
        let init = s.drop_last();
        lemma_word_trimmed(init);
        let n = word_trimmed(s).len() as int;
        assert(s.take(n) =~= init.take(n));
        assert forall|k: int| n <= k < s.len() implies !white_space(#[trigger] s[k]) by {
            if k < init.len() {
                assert(init[k] == s[k]);
            }
        }
    } else {
        assert(s.take(s.len() as int) =~= s);
    }
}

/// Replacing a part of the line replaces just that part of the text.
pub proof fn a_replacement_touches_its_part_only(
    view: InputView,
    from: int,
    to: int,
    with: Seq<char>,
)
    requires
        view.valid(),
        0 <= from <= to <= view.line().len(),
    ensures
        ({
            let start = view.place() - view.column;
            view.replaced(from, to, with).text() == view.text().take(start + from) + with
                + view.text().skip(start + to)
        }),
        view.replaced(from, to, with).place() == view.place() - view.column + from + with.len(),
{
    let start = view.place() - view.column;
    let text = view.text();
    lemma_with_line(view, view.line().take(from) + with, view.line().skip(to));
    assert(text.take(start + from) =~= above(view.lines, view.row) + view.line().take(from));
    assert(text.skip(start + to) =~= view.line().skip(to) + below(view.lines, view.row));
    assert(view.replaced(from, to, with).text() =~= text.take(start + from) + with + text.skip(
        start + to,
    ));
}

/// A paste lands at the cursor as it is, line breaks and all, and leaves the cursor behind it.
pub proof fn a_paste_lands_at_the_cursor(view: InputView, paste: Seq<char>, at: int)
    requires
        view.valid(),
        0 <= at <= paste.len(),
        !paste.contains('\r'),
    ensures
        pasted(view, paste, at).text() == view.text().take(view.place()) + paste.skip(at)
            + view.text().skip(view.place()),
        pasted(view, paste, at).place() == view.place() + paste.len() - at,
    decreases paste.len() - at,
{
    let p = view.place();
    let text = view.text();
    typing_lands_at_the_cursor(view, Seq::empty());
    if at >= paste.len() {
        assert(paste.skip(at) =~= Seq::<char>::empty());
        assert(text =~= text.take(p) + paste.skip(at) + text.skip(p));
    } else {
        assert(paste[at] != '\r');
        let c = paste[at];
        let next = if c == '\n' {
            a_break_lands_at_the_cursor(view);
            view.broken()
        } else {
            typing_lands_at_the_cursor(view, seq![c]);
            view.inserted(seq![c])
        };
        lemma_still_valid(view, c);
        a_paste_lands_at_the_cursor(next, paste, at + 1);
        assert(next.text() =~= text.take(p) + seq![c] + text.skip(p));
        assert(next.text().take(p + 1) =~= text.take(p) + seq![c]);
        assert(next.text().skip(p + 1) =~= text.skip(p));
        assert(paste.skip(at) =~= seq![c] + paste.skip(at + 1));
        assert(pasted(view, paste, at).text() =~= text.take(p) + paste.skip(at) + text.skip(p));
    }
}

proof fn lemma_still_valid(view: InputView, c: char)
    requires
        view.valid(),
    ensures
        view.broken().valid(),
        view.inserted(seq![c]).valid(),
{
}

} // verus!

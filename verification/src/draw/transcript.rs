//! Turning cells into lines.
//!
//! Wrapping happens here rather than in a widget because the scrollback needs a line count
//! it can pin a viewport to, and a widget that wraps internally will not tell anyone how many
//! lines it produced.

use vstd::prelude::*;
use crate::draw::markdown;
use crate::draw::markdown::{body_width, chunked, overflows, read_as, rendered};
use crate::protocol::{PermissionAnswer, ToolStatus};
use crate::style::{
    append_lines, blank_line, bolded, colored, line_of, line_views, plain, push_line, push_span,
    raw, span_views, styled, styled_line, Color, Line, LineView, Span, SpanView, Style,
};
use crate::support;
use crate::support::right_aligned;
use crate::text;
use crate::text::{decimal_of, lines_of, repeated, split_on, texts, trimmed};
use crate::transcript;
use crate::transcript::{
    cell_views, verb_of, CallState, Cell, CellView, PermissionCell, PermissionCellView, PlanCell,
    PlanCellView, ToolCell, ToolCellView,
};

verus! {

pub const USER: Color = Color::Cyan;

pub const THINKING: Color = Color::DarkGray;

pub const NOTICE: Color = Color::Blue;

pub const FAILURE: Color = Color::Red;

pub const DENIED: Color = Color::Yellow;

pub const SUCCESS: Color = Color::Green;

// Wrapping.

/// A text being wrapped: the lines that are full and the line under way.
pub struct Wrapping {
    pub lines: Seq<Seq<char>>,
    pub current: Seq<char>,
}

/// With a word that does not fit on a line of its own, broken wherever a line is full.
pub open spec fn with_long_word(state: Wrapping, word: Seq<char>, width: nat) -> Wrapping
    decreases word.len(),
{
    if word.len() == 0 {
        state
    } else {
        let before = with_long_word(state, word.drop_last(), width);
        if before.current.len() == width {
            Wrapping { lines: before.lines.push(before.current), current: seq![word.last()] }
        } else {
            Wrapping { lines: before.lines, current: before.current.push(word.last()) }
        }
    }
}

/// With one more word, on a new line where it does not fit behind the others.
pub open spec fn with_wrapped_word(state: Wrapping, word: Seq<char>, width: nat) -> Wrapping {
    let at = if state.current.len() > 0 && state.current.len() + 1 + word.len() > width {
        Wrapping { lines: state.lines.push(state.current), current: Seq::empty() }
    } else {
        state
    };
    if word.len() > width {
        with_long_word(at, word, width)
    } else if at.current.len() > 0 {
        Wrapping { lines: at.lines, current: at.current + " "@ + word }
    } else {
        Wrapping { lines: at.lines, current: word }
    }
}

/// Some words, wrapped.
pub open spec fn wrapping(words: Seq<Seq<char>>, width: nat) -> Wrapping
    decreases words.len(),
{
    if words.len() == 0 {
        Wrapping { lines: Seq::empty(), current: Seq::empty() }
    } else {
        with_wrapped_word(wrapping(words.drop_last(), width), words.last(), width)
    }
}

/// The lines of a text that is wrapped to `width`.
pub open spec fn wrapped(s: Seq<char>, width: nat) -> Seq<Seq<char>> {
    if s.len() == 0 {
        seq![Seq::empty()]
    } else {
        let state = wrapping(split_on(s, ' '), width);
        state.lines.push(state.current)
    }
}

/// Greedy word wrap, breaking inside a word only when it cannot fit alone.
pub fn wrap(s: &str, width: usize) -> (r: Vec<String>)
    ensures
        texts(r@) == wrapped(s@, width as nat),
{
    let mut lines: Vec<String> = Vec::new();
    let mut current = String::new();
    if s.unicode_len() == 0 {
        lines.push(current);
        assert(texts(lines@) =~= seq![Seq::<char>::empty()]);
        return lines;
    }
    let words = text::split(s, ' ');
    let ghost all = texts(words@);
    let mut used: usize = 0;
    let mut i: usize = 0;
    proof {
        assert(all.take(0) =~= Seq::empty());
        assert(texts(lines@) =~= Seq::empty());
        assert(current@ =~= Seq::<char>::empty());
    }
    while i < words.len()
        invariant
            i <= words.len(),
            all == texts(words@),
            used == current@.len(),
            (Wrapping { lines: texts(lines@), current: current@ }) == wrapping(
                all.take(i as int),
                width as nat,
            ),
        decreases words.len() - i,
    {
        assert(all.take(i as int + 1).drop_last() =~= all.take(i as int));
        assert(all[i as int] == words@[i as int]@);
        let word = words[i].as_str();
        let length: usize = word.unicode_len();
        if used > 0 && overflows(used, length, width) {
            let ghost done = texts(lines@).push(current@);
            lines.push(current);
            assert(texts(lines@) =~= done);
            current = String::new();
            assert(current@ =~= Seq::<char>::empty());
            used = 0;
        }
        if length > width {
            let v = text::to_chars(word);
            let ghost at = Wrapping { lines: texts(lines@), current: current@ };
            let mut k: usize = 0;
            assert(v@.take(0) =~= Seq::<char>::empty());
            while k < v.len()
                invariant
                    k <= v.len(),
                    used == current@.len(),
                    used <= width || used <= k,
                    (Wrapping { lines: texts(lines@), current: current@ }) == with_long_word(
                        at,
                        v@.take(k as int),
                        width as nat,
                    ),
                decreases v.len() - k,
            {
                assert(v@.take(k as int + 1).drop_last() =~= v@.take(k as int));
                if used == width {
                    let ghost done = texts(lines@).push(current@);
                    lines.push(current);
                    assert(texts(lines@) =~= done);
                    current = String::new();
                    current.push(v[k]);
                    assert(current@ =~= seq![v@[k as int]]);
                    used = 1;
                } else {
                    current.push(v[k]);
                    used += 1;
                }
                k += 1;
            }
            assert(v@.take(k as int) =~= word@);
        } else {
            if used > 0 {
                current.append(" ");
                current.append(word);
                proof {
                    reveal_strlit(" ");
                }
                used = used + 1 + length;
            } else {
                current = text::copy(word);
                used = length;
            }
        }
        i += 1;
    }
    assert(all.take(i as int) =~= all);
    let ghost done = texts(lines@).push(current@);
    lines.push(current);
    assert(texts(lines@) =~= done);
    lines
}

/// The lines that some paragraphs wrap to, one after the other.
pub open spec fn paragraphs_wrapped(paragraphs: Seq<Seq<char>>, body: nat) -> Seq<Seq<char>>
    decreases paragraphs.len(),
{
    if paragraphs.len() == 0 {
        Seq::empty()
    } else {
        paragraphs_wrapped(paragraphs.drop_last(), body) + wrapped(paragraphs.last(), body)
    }
}

/// A line of a block: the first carries the prefix, the others are indented as far.
pub open spec fn block_line(prefix: Seq<char>, chunk: Seq<char>, first: bool, style: Style) -> LineView {
    let lead = if first {
        prefix
    } else {
        repeated(' ', prefix.len())
    };
    line_of(seq![styled(lead, style), styled(chunk, style)])
}

/// The lines of a text in a block of its own.
pub open spec fn block_lines(prefix: Seq<char>, s: Seq<char>, style: Style, width: nat) -> Seq<
    LineView,
> {
    let chunks = paragraphs_wrapped(split_on(s, '\n'), body_width(width, prefix));
    Seq::new(chunks.len(), |i: int| block_line(prefix, chunks[i], i == 0, style))
}

/// Wraps `s` to `width`, prefixing the first line and indenting the rest so a wrapped
/// paragraph still reads as one block.
pub fn push_block(lines: &mut Vec<Line>, prefix: &str, s: &str, style: Style, width: usize)
    ensures
        line_views(final(lines)@) == line_views(old(lines)@) + block_lines(
            prefix@,
            s@,
            style,
            width as nat,
        ),
{
    let ghost start = line_views(lines@);
    let indent = text::repeat(' ', prefix.unicode_len());
    let body: usize = markdown::body_of(width, prefix);
    let paragraphs = text::split(s, '\n');
    let ghost all = texts(paragraphs@);
    let ghost chunks = paragraphs_wrapped(all, body as nat);
    let ghost block = block_lines(prefix@, s@, style, width as nat);
    let mut first = true;
    let mut i: usize = 0;
    proof {
        assert(all.take(0) =~= Seq::empty());
        assert(start + block.take(0) =~= start);
    }
    while i < paragraphs.len()
        invariant
            i <= paragraphs.len(),
            all == texts(paragraphs@),
            chunks == paragraphs_wrapped(all, body as nat),
            block == Seq::new(
                chunks.len(),
                |k: int| block_line(prefix@, chunks[k], k == 0, style),
            ),
            indent@ == repeated(' ', prefix@.len()),
            first == (paragraphs_wrapped(all.take(i as int), body as nat).len() == 0),
            line_views(lines@) == start + block.take(
                paragraphs_wrapped(all.take(i as int), body as nat).len() as int,
            ),
        decreases paragraphs.len() - i,
    {
        let ghost before = paragraphs_wrapped(all.take(i as int), body as nat);
        let ghost after = paragraphs_wrapped(all.take(i as int + 1), body as nat);
        let ghost own = wrapped(all[i as int], body as nat);
        proof {
            assert(all.take(i as int + 1).drop_last() =~= all.take(i as int));
            assert(all[i as int] == paragraphs@[i as int]@);
            lemma_paragraph_prefix(all, body as nat, i as int + 1);
            assert(after == before + own);
        }
        let parts = wrap(paragraphs[i].as_str(), body);
        let mut k: usize = 0;
        while k < parts.len()
            invariant
                k <= parts.len(),
                texts(parts@) == own,
                indent@ == repeated(' ', prefix@.len()),
                chunks.len() >= before.len() + own.len(),
                forall|j: int| 0 <= j < own.len() ==> #[trigger] own[j] == chunks[before.len() + j],
                block == Seq::new(
                    chunks.len(),
                    |j: int| block_line(prefix@, chunks[j], j == 0, style),
                ),
                first == (before.len() + k == 0),
                line_views(lines@) == start + block.take(before.len() + k),
            decreases parts.len() - k,
        {
            assert(own[k as int] == parts@[k as int]@);
            let lead = if first {
                prefix
            } else {
                indent.as_str()
            };
            let line = Line::of_two(
                Span::styled(lead, style),
                Span::styled(parts[k].as_str(), style),
            );
            push_line(lines, line);
            assert(start + block.take(before.len() + k + 1) =~= (start + block.take(
                before.len() + k,
            )).push(block[before.len() + k]));
            first = false;
            k += 1;
        }
        i += 1;
    }
    assert(all.take(i as int) =~= all);
    assert(block.take(chunks.len() as int) =~= block);
}

/// The lines of the first paragraphs are the first lines.
proof fn lemma_paragraph_prefix(paragraphs: Seq<Seq<char>>, body: nat, n: int)
    requires
        0 <= n <= paragraphs.len(),
    ensures
        paragraphs_wrapped(paragraphs.take(n), body).len() <= paragraphs_wrapped(
            paragraphs,
            body,
        ).len(),
        forall|k: int|
            0 <= k < paragraphs_wrapped(paragraphs.take(n), body).len()
                ==> #[trigger] paragraphs_wrapped(paragraphs, body)[k] == paragraphs_wrapped(
                paragraphs.take(n),
                body,
            )[k],
    decreases paragraphs.len(),
{
    if n < paragraphs.len() {
        lemma_paragraph_prefix(paragraphs.drop_last(), body, n);
        assert(paragraphs.drop_last().take(n) =~= paragraphs.take(n));
        assert forall|k: int|
            0 <= k < paragraphs_wrapped(
                paragraphs.take(n),
                body,
            ).len() implies #[trigger] paragraphs_wrapped(paragraphs, body)[k]
            == paragraphs_wrapped(paragraphs.take(n), body)[k] by {
            assert(paragraphs_wrapped(paragraphs.drop_last(), body)[k] == paragraphs_wrapped(
                paragraphs.take(n),
                body,
            )[k]);
        }
    } else {
        assert(paragraphs.take(n) =~= paragraphs);
    }
}

// Tool calls.

/// How bad an outcome is.
pub open spec fn rank_of(status: ToolStatus) -> nat {
    match status {
        ToolStatus::Succeeded => 0,
        ToolStatus::Cancelled => 1,
        ToolStatus::Denied => 2,
        ToolStatus::Error => 3,
    }
}

/// How bad an outcome is.
fn rank(status: ToolStatus) -> (r: u8)
    ensures
        r == rank_of(status),
{
    match status {
        ToolStatus::Succeeded => 0,
        ToolStatus::Cancelled => 1,
        ToolStatus::Denied => 2,
        ToolStatus::Error => 3,
    }
}

/// The worse of two outcomes.
pub open spec fn worse(status: ToolStatus, running: ToolStatus) -> ToolStatus {
    if rank_of(status) >= rank_of(running) {
        status
    } else {
        running
    }
}

/// The status a group is reported as: the worst one in it.
///
/// A run summarised by its first call would hide a failure behind two successes, which is the
/// one thing a collapsed line must never do.
pub fn worst(status: ToolStatus, running: ToolStatus) -> (r: ToolStatus)
    ensures
        r == worse(status, running),
{
    if rank(status) >= rank(running) {
        status
    } else {
        running
    }
}

/// The worst outcome among some calls, those that are still running aside.
pub open spec fn worst_of(tools: Seq<ToolCellView>) -> ToolStatus
    decreases tools.len(),
{
    if tools.len() == 0 {
        ToolStatus::Succeeded
    } else {
        match tools.last().state {
            CallState::Finished(status) => worse(status, worst_of(tools.drop_last())),
            CallState::Running => worst_of(tools.drop_last()),
        }
    }
}

/// The calls among some cells.
pub open spec fn tools_of(cells: Seq<CellView>) -> Seq<ToolCellView>
    decreases cells.len(),
{
    if cells.len() == 0 {
        Seq::empty()
    } else {
        match cells.last() {
            CellView::Tool(tool) => tools_of(cells.drop_last()).push(tool),
            _ => tools_of(cells.drop_last()),
        }
    }
}

/// The glyph and style for a call's state.
pub open spec fn marked(state: CallState) -> (Seq<char>, Style) {
    match state {
        CallState::Running => ("…"@, colored(Color::Magenta)),
        CallState::Finished(ToolStatus::Succeeded) => ("✓"@, colored(SUCCESS)),
        CallState::Finished(ToolStatus::Error) => ("✗"@, colored(FAILURE)),
        CallState::Finished(ToolStatus::Denied) => ("⊘"@, colored(DENIED)),
        CallState::Finished(ToolStatus::Cancelled) => ("–"@, colored(THINKING)),
    }
}

/// The glyph and style for a call's state.
pub fn marker(state: CallState) -> (r: (&'static str, Style))
    ensures
        (r.0@, r.1) == marked(state),
{
    match state {
        CallState::Running => ("…", Style::new().fg(Color::Magenta)),
        CallState::Finished(ToolStatus::Succeeded) => ("✓", Style::new().fg(SUCCESS)),
        CallState::Finished(ToolStatus::Error) => ("✗", Style::new().fg(FAILURE)),
        CallState::Finished(ToolStatus::Denied) => ("⊘", Style::new().fg(DENIED)),
        CallState::Finished(ToolStatus::Cancelled) => ("–", Style::new().fg(THINKING)),
    }
}

/// The one line a collapsed thing shows, with the marker that says which way it opens.
pub open spec fn header_line(
    mark: Seq<char>,
    title: Seq<char>,
    summary: Seq<char>,
    open: bool,
    style: Style,
) -> LineView {
    let named = seq![styled(mark + " "@, style), styled(title, bolded(style))];
    let said = if summary.len() > 0 {
        named + seq![raw(" "@), styled(summary, colored(THINKING))]
    } else {
        named
    };
    line_of(
        said.push(
            styled(
                if open {
                    "  ▾"@
                } else {
                    "  ▸"@
                },
                colored(THINKING),
            ),
        ),
    )
}

/// The one line a collapsed thing shows.
fn header(mark: &str, title: &str, summary: &str, open: bool, style: Style) -> (r: Line)
    ensures
        r@ == header_line(mark@, title@, summary@, open, style),
{
    let mut spans: Vec<Span> = Vec::new();
    assert(span_views(spans@) =~= Seq::empty());
    let lead = text::concat(mark, " ");
    push_span(&mut spans, Span::styled(lead.as_str(), style));
    push_span(&mut spans, Span::styled(title, style.bold()));
    assert(span_views(spans@) =~= seq![styled(mark@ + " "@, style), styled(title@, bolded(style))]);
    let ghost named = span_views(spans@);
    if summary.unicode_len() > 0 {
        push_span(&mut spans, Span::raw(" "));
        push_span(&mut spans, Span::styled(summary, Style::new().fg(THINKING)));
        assert(span_views(spans@) =~= named + seq![
            raw(" "@),
            styled(summary@, colored(THINKING)),
        ]);
    }
    let arrow = if open {
        "  ▾"
    } else {
        "  ▸"
    };
    push_span(&mut spans, Span::styled(arrow, Style::new().fg(THINKING)));
    Line::of(spans)
}

/// Whether a tool's detail is a diff.
pub open spec fn shows_diff(name: Seq<char>) -> bool {
    name == "edit"@ || name == "write_file"@ || name == "apply_patch"@
}

/// Whether a tool's detail is a diff.
pub fn is_diff_tool(name: &str) -> (r: bool)
    ensures
        r == shows_diff(name@),
{
    text::eq(name, "edit") || text::eq(name, "write_file") || text::eq(name, "apply_patch")
}

/// The color of a line of a diff, by its sign.
pub open spec fn diff_color(line: Seq<char>) -> Color {
    if line.len() > 0 && line[0] == '-' {
        FAILURE
    } else if line.len() > 0 && line[0] == '+' {
        SUCCESS
    } else {
        THINKING
    }
}

/// One line of a diff, wrapped.
pub open spec fn diff_line(prefix: Seq<char>, line: Seq<char>, body: nat) -> Seq<LineView> {
    chunked(line, body).map_values(
        |c: Seq<char>| line_of(seq![raw(prefix), styled(c, colored(diff_color(line)))]),
    )
}

/// The lines of a diff, wrapped.
pub open spec fn diff_lines(prefix: Seq<char>, lines: Seq<Seq<char>>, body: nat) -> Seq<LineView>
    decreases lines.len(),
{
    if lines.len() == 0 {
        Seq::empty()
    } else {
        diff_lines(prefix, lines.drop_last(), body) + diff_line(prefix, lines.last(), body)
    }
}

/// The lines of a diff in a block of its own.
pub open spec fn diff_block(prefix: Seq<char>, detail: Seq<char>, width: nat) -> Seq<LineView> {
    diff_lines(prefix, lines_of(detail), body_width(width, prefix))
}

/// Draws a diff, each line in the color of its sign.
pub fn push_diff_block(lines: &mut Vec<Line>, prefix: &str, detail: &str, width: usize)
    ensures
        line_views(final(lines)@) == line_views(old(lines)@) + diff_block(
            prefix@,
            detail@,
            width as nat,
        ),
{
    let ghost start = line_views(lines@);
    let body: usize = markdown::body_of(width, prefix);
    let rows = text::lines(detail);
    let ghost all = texts(rows@);
    let mut i: usize = 0;
    assert(start + diff_lines(prefix@, all.take(0), body as nat) =~= start);
    while i < rows.len()
        invariant
            i <= rows.len(),
            all == texts(rows@),
            body > 0,
            line_views(lines@) == start + diff_lines(prefix@, all.take(i as int), body as nat),
        decreases rows.len() - i,
    {
        let ghost before = line_views(lines@);
        assert(all.take(i as int + 1).drop_last() =~= all.take(i as int));
        assert(all[i as int] == rows@[i as int]@);
        let row = rows[i].as_str();
        let color = if row.unicode_len() > 0 && row.get_char(0) == '-' {
            FAILURE
        } else if row.unicode_len() > 0 && row.get_char(0) == '+' {
            SUCCESS
        } else {
            THINKING
        };
        let parts = markdown::wrap_plain(row, body);
        let ghost pieces = chunked(row@, body as nat);
        let ghost more = diff_line(prefix@, row@, body as nat);
        let mut k: usize = 0;
        assert(before + more.take(0) =~= before);
        while k < parts.len()
            invariant
                k <= parts.len(),
                texts(parts@) == pieces,
                color == diff_color(row@),
                more == pieces.map_values(
                    |c: Seq<char>| line_of(seq![raw(prefix@), styled(c, colored(diff_color(row@)))]),
                ),
                line_views(lines@) == before + more.take(k as int),
            decreases parts.len() - k,
        {
            assert(pieces[k as int] == parts@[k as int]@);
            let line = Line::of_two(
                Span::raw(prefix),
                Span::styled(parts[k].as_str(), Style::new().fg(color)),
            );
            push_line(lines, line);
            assert(before + more.take(k as int + 1) =~= (before + more.take(k as int)).push(
                more[k as int],
            ));
            k += 1;
        }
        assert(more.take(k as int) =~= more);
        assert(before + more =~= start + diff_lines(prefix@, all.take(i as int + 1), body as nat));
        i += 1;
    }
    assert(all.take(i as int) =~= all);
}

/// The lines of one call in an open group.
pub open spec fn call_lines(tool: ToolCellView, alone: bool, width: nat) -> Seq<LineView> {
    let title = if alone {
        Seq::empty()
    } else {
        let (glyph, style) = marked(tool.state);
        seq![
            line_of(
                seq![
                    styled("    "@ + glyph + " "@, style),
                    styled(tool.summary, colored(THINKING)),
                ],
            ),
        ]
    };
    let arguments = if tool.arguments != tool.summary && !shows_diff(tool.name) {
        block_lines("      "@, tool.arguments, colored(THINKING), width)
    } else {
        Seq::empty()
    };
    let detail = match tool.detail {
        Some(detail) => if shows_diff(tool.name) {
            diff_block("      "@, detail, width)
        } else {
            block_lines("      "@, detail, colored(THINKING), width)
        },
        None => Seq::empty(),
    };
    title + arguments + detail
}

/// The lines of some calls in an open group.
pub open spec fn calls_lines(tools: Seq<ToolCellView>, alone: bool, width: nat) -> Seq<LineView>
    decreases tools.len(),
{
    if tools.len() == 0 {
        Seq::empty()
    } else {
        calls_lines(tools.drop_last(), alone, width) + call_lines(tools.last(), alone, width)
    }
}

/// Whether any of some calls is still running.
pub open spec fn any_running(tools: Seq<ToolCellView>) -> bool {
    exists|i: int| 0 <= i < tools.len() && #[trigger] tools[i].state == CallState::Running
}

/// What the header of a group says of its calls: what a lone call acted on, and how many
/// there are of more.
pub open spec fn group_summary(tools: Seq<ToolCellView>) -> Seq<char> {
    if tools.len() == 1 {
        tools[0].summary
    } else {
        decimal_of(tools.len()) + " "@ + verb_of(tools[0].name).1
    }
}

/// The header of a group.
pub open spec fn group_header(tools: Seq<ToolCellView>, open: bool) -> LineView {
    let (mark, style) = marked(
        if any_running(tools) {
            CallState::Running
        } else {
            CallState::Finished(worst_of(tools))
        },
    );
    header_line(mark, verb_of(tools[0].name).0, group_summary(tools), open, style)
}

/// The lines of a group of calls.
pub open spec fn grouped_lines(tools: Seq<ToolCellView>, open: bool, width: nat) -> Seq<LineView> {
    if tools.len() == 0 {
        Seq::empty()
    } else if open {
        seq![group_header(tools, open)] + calls_lines(tools, tools.len() == 1, width)
    } else {
        seq![group_header(tools, open)]
    }
}

/// What some calls say.
pub open spec fn tool_views(tools: Seq<&ToolCell>) -> Seq<ToolCellView> {
    tools.map_values(|t: &ToolCell| t@)
}

/// The calls among `cells[from..to]`.
fn tools_in(cells: &Vec<Cell>, from: usize, to: usize) -> (r: Vec<&ToolCell>)
    requires
        from <= to <= cells.len(),
    ensures
        tool_views(r@) == tools_of(cell_views(cells@).subrange(from as int, to as int)),
{
    let ghost all = cell_views(cells@).subrange(from as int, to as int);
    let mut r: Vec<&ToolCell> = Vec::new();
    let mut i: usize = from;
    assert(tool_views(r@) =~= tools_of(all.take(0)));
    while i < to
        invariant
            from <= i <= to <= cells.len(),
            all == cell_views(cells@).subrange(from as int, to as int),
            tool_views(r@) == tools_of(all.take(i - from)),
        decreases to - i,
    {
        let ghost done = tool_views(r@);
        assert(all.take(i - from + 1).drop_last() =~= all.take(i - from));
        assert(all[i - from] == cells@[i as int]@);
        if let Cell::Tool(tool) = &cells[i] {
            r.push(tool);
            assert(tool_views(r@) =~= done.push(tool@));
        }
        i += 1;
    }
    assert(all.take(i - from) =~= all);
    r
}

/// Draws one call in an open group.
fn push_call(lines: &mut Vec<Line>, tool: &ToolCell, alone: bool, width: usize)
    ensures
        line_views(final(lines)@) == line_views(old(lines)@) + call_lines(
            tool@,
            alone,
            width as nat,
        ),
{
    let ghost start = line_views(lines@);
    let diff = is_diff_tool(tool.name.as_str());
    if !alone {
        let (glyph, style) = marker(tool.state);
        let lead = text::concat3("    ", glyph, " ");
        let line = Line::of_two(
            Span::styled(lead.as_str(), style),
            Span::styled(tool.summary.as_str(), Style::new().fg(THINKING)),
        );
        push_line(lines, line);
    }
    let ghost titled = line_views(lines@);
    assert(alone ==> titled =~= start + Seq::<LineView>::empty());
    if !text::eq(tool.arguments.as_str(), tool.summary.as_str()) && !diff {
        push_block(lines, "      ", tool.arguments.as_str(), Style::new().fg(THINKING), width);
    }
    if let Some(detail) = &tool.detail {
        if diff {
            push_diff_block(lines, "      ", detail.as_str(), width);
        } else {
            push_block(lines, "      ", detail.as_str(), Style::new().fg(THINKING), width);
        }
    }
    assert(line_views(lines@) =~= start + call_lines(tool@, alone, width as nat));
}

/// One run of calls of the same kind, as a single header that opens.
///
/// Collapsed, a lone call still names what it acted on, because a count of one tells a reader
/// nothing they did not already see. The running mark wins the header while anything in the
/// run is still going, even if an earlier call in it already failed.
pub fn group_lines(cells: &Vec<Cell>, from: usize, to: usize, open: bool, width: usize) -> (r: Vec<
    Line,
>)
    requires
        from <= to <= cells.len(),
    ensures
        line_views(r@) == grouped_lines(
            tools_of(cell_views(cells@).subrange(from as int, to as int)),
            open,
            width as nat,
        ),
{
    let tools = tools_in(cells, from, to);
    let ghost all = tool_views(tools@);
    let mut lines: Vec<Line> = Vec::new();
    assert(line_views(lines@) =~= Seq::empty());
    if tools.len() == 0 {
        return lines;
    }
    let mut running = false;
    let mut status = ToolStatus::Succeeded;
    let mut i: usize = 0;
    while i < tools.len()
        invariant
            i <= tools.len(),
            all == tool_views(tools@),
            running == any_running(all.take(i as int)),
            status == worst_of(all.take(i as int)),
        decreases tools.len() - i,
    {
        let ghost before = all.take(i as int);
        let ghost after = all.take(i as int + 1);
        assert(after.drop_last() =~= before);
        assert(all[i as int] == tools@[i as int]@);
        proof {
            if any_running(before) {
                let k = choose|k: int|
                    0 <= k < before.len() && #[trigger] before[k].state == CallState::Running;
                assert(after[k].state == CallState::Running);
            }
            if any_running(after) && after.last().state != CallState::Running {
                let k = choose|k: int|
                    0 <= k < after.len() && #[trigger] after[k].state == CallState::Running;
                assert(before[k].state == CallState::Running);
            }
        }
        match tools[i].state {
            CallState::Running => {
                running = true;
                assert(after[i as int].state == CallState::Running);
            },
            CallState::Finished(own) => {
                status = worst(own, status);
            },
        }
        i += 1;
    }
    assert(all.take(i as int) =~= all);
    assert(all[0] == tools@[0]@);
    let state = if running {
        CallState::Running
    } else {
        CallState::Finished(status)
    };
    let (mark, style) = marker(state);
    let (title, noun) = transcript::verb(tools[0].name.as_str());
    let summary = if tools.len() == 1 {
        tools[0].summary.clone()
    } else {
        let count = text::decimal(tools.len() as u64);
        text::concat3(count.as_str(), " ", noun.as_str())
    };
    let alone = tools.len() == 1;
    push_line(&mut lines, header(mark, title.as_str(), summary.as_str(), open, style));
    assert(line_views(lines@) =~= seq![group_header(all, open)]);
    if !open {
        return lines;
    }
    let mut k: usize = 0;
    assert(line_views(lines@) =~= seq![group_header(all, open)] + calls_lines(
        all.take(0),
        alone,
        width as nat,
    ));
    while k < tools.len()
        invariant
            k <= tools.len(),
            all == tool_views(tools@),
            line_views(lines@) == seq![group_header(all, open)] + calls_lines(
                all.take(k as int),
                alone,
                width as nat,
            ),
        decreases tools.len() - k,
    {
        assert(all.take(k as int + 1).drop_last() =~= all.take(k as int));
        assert(all[k as int] == tools@[k as int]@);
        push_call(&mut lines, tools[k], alone, width);
        assert(line_views(lines@) =~= seq![group_header(all, open)] + calls_lines(
            all.take(k as int + 1),
            alone,
            width as nat,
        ));
        k += 1;
    }
    assert(all.take(k as int) =~= all);
    lines
}

/// Whether a cell belongs in the run called `run`, finished or not.
pub open spec fn runs(cell: CellView, run: Seq<char>) -> bool {
    match cell {
        CellView::Tool(tool) => verb_of(tool.name).0 == run,
        _ => false,
    }
}

/// Whether a cell belongs in the run being gathered for drawing.
///
/// This also folds in a still-running call of the same kind, since two reads drawn back to
/// back read as one action in progress, not two.
pub fn runs_with(cell: &Cell, run: &str) -> (r: bool)
    ensures
        r == runs(cell@, run@),
{
    match cell {
        Cell::Tool(tool) => {
            let (name, _) = transcript::verb(tool.name.as_str());
            text::eq(name.as_str(), run)
        },
        _ => false,
    }
}

/// Whether a call keeps its run open.
pub open spec fn keeps_open(cell: CellView) -> bool {
    match cell {
        CellView::Tool(tool) => match tool.state {
            CallState::Running => true,
            CallState::Finished(ToolStatus::Error) => true,
            CallState::Finished(ToolStatus::Denied) => true,
            CallState::Finished(ToolStatus::Succeeded) => shows_diff(tool.name)
                && tool.detail is Some,
            CallState::Finished(ToolStatus::Cancelled) => false,
        },
        _ => false,
    }
}

/// Whether a run is open before any manual toggle is applied.
pub open spec fn opens(group: Seq<CellView>) -> bool {
    exists|i: int| 0 <= i < group.len() && keeps_open(#[trigger] group[i])
}

/// Whether a run should be open before any manual toggle is applied.
///
/// A run still in flight is shown as it happens. One that finished cleanly folds away; one
/// that ended in an error or a denial stays open, because that is exactly the case a person
/// needs to see without hunting for it.
pub fn default_open(cells: &Vec<Cell>, from: usize, to: usize) -> (r: bool)
    requires
        from <= to <= cells.len(),
    ensures
        r == opens(cell_views(cells@).subrange(from as int, to as int)),
{
    let ghost all = cell_views(cells@).subrange(from as int, to as int);
    let mut i: usize = from;
    while i < to
        invariant
            from <= i <= to <= cells.len(),
            all == cell_views(cells@).subrange(from as int, to as int),
            forall|k: int| 0 <= k < i - from ==> !keeps_open(#[trigger] all[k]),
        decreases to - i,
    {
        assert(all[i - from] == cells@[i as int]@);
        if let Cell::Tool(tool) = &cells[i] {
            let open = match tool.state {
                CallState::Running => true,
                CallState::Finished(ToolStatus::Error) => true,
                CallState::Finished(ToolStatus::Denied) => true,
                CallState::Finished(ToolStatus::Succeeded) => is_diff_tool(tool.name.as_str())
                    && tool.detail.is_some(),
                CallState::Finished(ToolStatus::Cancelled) => false,
            };
            if open {
                return true;
            }
        }
        i += 1;
    }
    false
}

// Prompts and plans.

/// The marker and style of a prompt, by its answer.
pub open spec fn prompt_mark(answer: Option<PermissionAnswer>) -> (Seq<char>, Style) {
    match answer {
        None => ("?"@, bolded(colored(DENIED))),
        Some(PermissionAnswer::Deny) => ("⊘"@, colored(DENIED)),
        Some(_) => ("✓"@, colored(SUCCESS)),
    }
}

/// The lines of an approval request. The keys are listed only while it is a question.
pub open spec fn prompt_lines(prompt: PermissionCellView, width: nat) -> Seq<LineView> {
    let (mark, style) = prompt_mark(prompt.answer);
    let asked = seq![
        line_of(
            seq![
                styled(mark + " approve "@, style),
                styled(prompt.name, bolded(style)),
                raw(" "@),
                styled(prompt.summary, colored(THINKING)),
            ],
        ),
    ] + block_lines("    "@, prompt.reason, colored(THINKING), width);
    match prompt.answer {
        None => asked.push(styled_line("    [y] allow  [a] always allow  [n] deny"@, style)),
        Some(PermissionAnswer::AllowAlways) => asked.push(
            styled_line("    always allowed"@, style),
        ),
        Some(_) => asked,
    }
}

/// The lines of an approval request.
pub fn permission_lines(prompt: &PermissionCell, width: usize) -> (r: Vec<Line>)
    ensures
        line_views(r@) == prompt_lines(prompt@, width as nat),
{
    let (mark, style) = match prompt.answer {
        None => ("?", Style::new().fg(DENIED).bold()),
        Some(PermissionAnswer::Deny) => ("⊘", Style::new().fg(DENIED)),
        Some(_) => ("✓", Style::new().fg(SUCCESS)),
    };
    let mut spans: Vec<Span> = Vec::new();
    assert(span_views(spans@) =~= Seq::empty());
    let lead = text::concat(mark, " approve ");
    push_span(&mut spans, Span::styled(lead.as_str(), style));
    push_span(&mut spans, Span::styled(prompt.name.as_str(), style.bold()));
    push_span(&mut spans, Span::raw(" "));
    push_span(&mut spans, Span::styled(prompt.summary.as_str(), Style::new().fg(THINKING)));
    assert(span_views(spans@) =~= seq![
        styled(mark@ + " approve "@, style),
        styled(prompt.name@, bolded(style)),
        raw(" "@),
        styled(prompt.summary@, colored(THINKING)),
    ]);
    let mut lines: Vec<Line> = Vec::new();
    assert(line_views(lines@) =~= Seq::empty());
    let first = Line::of(spans);
    let ghost view = first@;
    push_line(&mut lines, first);
    assert(line_views(lines@) =~= seq![view]);
    push_block(&mut lines, "    ", prompt.reason.as_str(), Style::new().fg(THINKING), width);
    match prompt.answer {
        None => {
            push_line(
                &mut lines,
                Line::styled("    [y] allow  [a] always allow  [n] deny", style),
            );
        },
        Some(PermissionAnswer::AllowAlways) => {
            push_line(&mut lines, Line::styled("    always allowed", style));
        },
        Some(_) => {},
    }
    lines
}

/// Width of the plan's line-number gutter, including its trailing space.
pub const PLAN_GUTTER: usize = 5;

/// How wide the text of a plan may be.
pub open spec fn plan_body(width: nat) -> nat {
    if width > PLAN_GUTTER + 8 {
        (width - PLAN_GUTTER) as nat
    } else {
        8
    }
}

/// The header of a plan, by its answer.
pub open spec fn plan_header(answer: Option<PermissionAnswer>) -> SpanView {
    match answer {
        None => styled(
            " plan "@,
            Style { fg: Some(Color::Black), bg: Some(DENIED), bold: true, ..plain() },
        ),
        Some(PermissionAnswer::Deny) => styled(" plan · sent back "@, colored(THINKING)),
        Some(_) => styled(" plan · approved "@, colored(SUCCESS)),
    }
}

/// A row of a plan: the number of its line and a part of the line.
pub open spec fn plan_row(index: int, part: Seq<char>) -> LineView {
    line_of(
        seq![
            styled(
                right_aligned(decimal_of((index + 1) as nat), 4) + " "@,
                colored(THINKING),
            ),
            raw(part),
        ],
    )
}

/// The rows of one line of a plan.
pub open spec fn plan_line_rows(index: int, line: Seq<char>, body: nat) -> Seq<LineView> {
    chunked(line, body).map_values(|c: Seq<char>| plan_row(index, c))
}

/// The rows of the lines of a plan.
pub open spec fn plan_rows(lines: Seq<Seq<char>>, body: nat) -> Seq<LineView>
    decreases lines.len(),
{
    if lines.len() == 0 {
        Seq::empty()
    } else {
        plan_rows(lines.drop_last(), body) + plan_line_rows(lines.len() - 1, lines.last(), body)
    }
}

/// Which line of a plan each of its rows belongs to, with where the row stands when the first
/// stands at `at`.
pub open spec fn plan_places(lines: Seq<Seq<char>>, body: nat, at: int) -> Seq<(int, int)>
    decreases lines.len(),
{
    if lines.len() == 0 {
        Seq::empty()
    } else {
        let start = at + plan_rows(lines.drop_last(), body).len();
        plan_places(lines.drop_last(), body, at) + Seq::new(
            chunked(lines.last(), body).len(),
            |k: int| (lines.len() - 1, start + k),
        )
    }
}

/// The lines of a plan above its rows.
pub open spec fn plan_top(plan: PlanCellView) -> Seq<LineView> {
    if trimmed(plan.text).len() == 0 {
        seq![
            line_of(seq![plan_header(plan.answer)]),
            styled_line("  the agent proposed no plan"@, colored(DENIED)),
        ]
    } else {
        seq![line_of(seq![plan_header(plan.answer)])]
    }
}

/// The lines of a plan, numbered line by line.
pub open spec fn plan_drawn(plan: PlanCellView, width: nat) -> Seq<LineView> {
    let body = plan_top(plan) + plan_rows(lines_of(plan.text), plan_body(width));
    let saved = match plan.path {
        Some(path) => body.push(styled_line("  "@ + path, colored(THINKING))),
        None => body,
    };
    saved.push(blank_line())
}

/// A drawn transcript, plus where its expandable headers landed.
///
/// A click arrives as a screen position and nothing else, so the frame that drew a header is
/// the only thing that can say which cell it belongs to.
#[derive(Debug, PartialEq, Eq)]
pub struct Rendered {
    pub lines: Vec<Line>,
    /// `(line index, cell key)` for every row a click may expand or collapse.
    pub toggles: Vec<(usize, usize)>,
    /// `(plan line, line index)` for the plans drawn, so the frame can scroll a selection
    /// that lives inside the scrollback into view.
    pub plan_lines: Vec<(usize, usize)>,
}

/// What a [`Rendered`] says.
pub struct RenderedView {
    pub lines: Seq<LineView>,
    pub toggles: Seq<(int, int)>,
    pub plan_lines: Seq<(int, int)>,
}

/// Pairs of places.
pub open spec fn places(pairs: Seq<(usize, usize)>) -> Seq<(int, int)> {
    pairs.map_values(|p: (usize, usize)| (p.0 as int, p.1 as int))
}

impl View for Rendered {
    type V = RenderedView;

    open spec fn view(&self) -> RenderedView {
        RenderedView {
            lines: line_views(self.lines@),
            toggles: places(self.toggles@),
            plan_lines: places(self.plan_lines@),
        }
    }
}

/// Draws a plan, numbered line by line.
///
/// Numbered rather than rendered as markdown because a comment says "line 7", so line 7 has to
/// be something a person can see and point at. A line too long for the screen wraps, and every
/// row it wraps onto still belongs to it.
#[verifier::spinoff_prover]
#[verifier::rlimit(60)]
pub fn plan_lines(out: &mut Rendered, cell: &PlanCell, width: usize)
    ensures
        final(out)@ == (RenderedView {
            lines: old(out)@.lines + plan_drawn(cell@, width as nat),
            toggles: old(out)@.toggles,
            plan_lines: old(out)@.plan_lines + plan_places(
                lines_of(cell.text@),
                plan_body(width as nat),
                (old(out)@.lines.len() + plan_top(cell@).len()) as int,
            ),
        }),
{
    let ghost start = out@;
    let header = match cell.answer {
        None => Span::styled(" plan ", Style::new().fg(Color::Black).bg(DENIED).bold()),
        Some(PermissionAnswer::Deny) => Span::styled(
            " plan · sent back ",
            Style::new().fg(THINKING),
        ),
        Some(_) => Span::styled(" plan · approved ", Style::new().fg(SUCCESS)),
    };
    push_line(&mut out.lines, Line::of_one(header));
    let visible = text::trim(cell.text.as_str());
    if visible.as_str().unicode_len() == 0 {
        push_line(
            &mut out.lines,
            Line::styled("  the agent proposed no plan", Style::new().fg(DENIED)),
        );
    }
    assert(out@.lines =~= start.lines + plan_top(cell@));
    let body: usize = if width > PLAN_GUTTER && width - PLAN_GUTTER > 8 {
        width - PLAN_GUTTER
    } else {
        8
    };
    let rows = text::lines(cell.text.as_str());
    let ghost all = texts(rows@);
    let ghost top = out@.lines;
    let mut i: usize = 0;
    proof {
        assert(top + plan_rows(all.take(0), body as nat) =~= top);
        assert(start.plan_lines + plan_places(all.take(0), body as nat, top.len() as int)
            =~= start.plan_lines);
    }
    while i < rows.len()
        invariant
            i <= rows.len(),
            all == texts(rows@),
            body > 0,
            out@.lines == top + plan_rows(all.take(i as int), body as nat),
            out@.toggles == start.toggles,
            out@.plan_lines == start.plan_lines + plan_places(
                all.take(i as int),
                body as nat,
                top.len() as int,
            ),
        decreases rows.len() - i,
    {
        let ghost before = out@;
        let ghost line = all[i as int];
        assert(all.take(i as int + 1).drop_last() =~= all.take(i as int));
        assert(line == rows@[i as int]@);
        let parts = markdown::wrap_plain(rows[i].as_str(), body);
        let ghost pieces = chunked(line, body as nat);
        let ghost more = plan_line_rows(i as int, line, body as nat);
        let ghost marks = Seq::new(
            pieces.len(),
            |k: int| (i as int, before.lines.len() + k),
        );
        let number = text::decimal(i as u64 + 1);
        let number = support::right_align(number.as_str(), 4);
        let number = text::concat(number.as_str(), " ");
        let mut k: usize = 0;
        proof {
            assert(before.lines + more.take(0) =~= before.lines);
            assert(before.plan_lines + marks.take(0) =~= before.plan_lines);
        }
        while k < parts.len()
            invariant
                k <= parts.len(),
                texts(parts@) == pieces,
                number@ == right_aligned(decimal_of((i + 1) as nat), 4) + " "@,
                more == pieces.map_values(|c: Seq<char>| plan_row(i as int, c)),
                marks == Seq::new(pieces.len(), |j: int| (i as int, before.lines.len() + j)),
                out@.lines == before.lines + more.take(k as int),
                out@.toggles == before.toggles,
                out@.plan_lines == before.plan_lines + marks.take(k as int),
            decreases parts.len() - k,
        {
            assert(pieces[k as int] == parts@[k as int]@);
            let at: usize = out.lines.len();
            assert(at == out@.lines.len());
            let ghost was = out@;
            out.plan_lines.push((i, at));
            assert(places(out.plan_lines@) =~= was.plan_lines.push((i as int, at as int)));
            let row = Line::of_two(
                Span::styled(number.as_str(), Style::new().fg(THINKING)),
                Span::raw(parts[k].as_str()),
            );
            push_line(&mut out.lines, row);
            assert(before.lines + more.take(k as int + 1) =~= (before.lines + more.take(
                k as int,
            )).push(more[k as int]));
            assert(before.plan_lines + marks.take(k as int + 1) =~= (before.plan_lines
                + marks.take(k as int)).push(marks[k as int]));
            k += 1;
        }
        proof {
            assert(more.take(k as int) =~= more);
            assert(marks.take(k as int) =~= marks);
            assert(before.lines + more =~= top + plan_rows(all.take(i as int + 1), body as nat));
            assert(all.take(i as int + 1).last() == line);
            assert(before.plan_lines + marks =~= start.plan_lines + plan_places(
                all.take(i as int + 1),
                body as nat,
                top.len() as int,
            ));
        }
        i += 1;
    }
    assert(all.take(i as int) =~= all);
    if let Some(path) = &cell.path {
        let shown = text::concat("  ", path.as_str());
        push_line(&mut out.lines, Line::styled(shown.as_str(), Style::new().fg(THINKING)));
    }
    push_line(&mut out.lines, Line::blank());
    assert(out@.lines =~= start.lines + plan_drawn(cell@, width as nat));
}

// The whole transcript.

/// Where the run that starts at `i` ends.
pub open spec fn run_end(cells: Seq<CellView>, i: int, run: Seq<char>) -> int
    decreases cells.len() - i,
{
    if 0 <= i < cells.len() && runs(cells[i], run) {
        run_end(cells, i + 1, run)
    } else {
        i
    }
}

/// A run ends behind where it starts.
pub proof fn lemma_run_end(cells: Seq<CellView>, i: int, run: Seq<char>)
    requires
        0 <= i <= cells.len(),
    ensures
        i <= run_end(cells, i, run) <= cells.len(),
        i < cells.len() && runs(cells[i], run) ==> i < run_end(cells, i, run),
    decreases cells.len() - i,
{
    if i < cells.len() && runs(cells[i], run) {
        lemma_run_end(cells, i + 1, run);
    }
}

/// The text without line feeds at either end.
pub open spec fn feeds_trimmed_both(s: Seq<char>) -> Seq<char> {
    support::feeds_trimmed(feeds_trimmed_start(s))
}

/// The text without line feeds at its start.
pub open spec fn feeds_trimmed_start(s: Seq<char>) -> Seq<char>
    decreases s.len(),
{
    if s.len() > 0 && s[0] == '\n' {
        feeds_trimmed_start(s.drop_first())
    } else {
        s
    }
}

/// The lines of a cell that is no call and no plan; none of an answer that says nothing.
pub open spec fn cell_lines(cell: CellView, width: nat) -> Seq<LineView> {
    match cell {
        CellView::User(s) => block_lines("› "@, s, colored(USER), width),
        CellView::Assistant(s) => if feeds_trimmed_both(s).len() == 0 {
            Seq::empty()
        } else {
            rendered(read_as(feeds_trimmed_both(s)), width, plain(), ""@)
        },
        CellView::Permission(prompt) => prompt_lines(prompt, width),
        CellView::Error(s) => block_lines("error: "@, s, colored(FAILURE), width),
        CellView::Notice(s) => block_lines("· "@, s, colored(NOTICE), width),
        CellView::Banner(lines) => lines.map_values(
            |l: Seq<char>| styled_line(l, colored(THINKING)),
        ),
        _ => Seq::empty(),
    }
}

/// Whether a cell is an answer that says nothing.
pub open spec fn says_nothing(cell: CellView) -> bool {
    match cell {
        CellView::Assistant(s) => feeds_trimmed_both(s).len() == 0,
        _ => false,
    }
}

/// What has been drawn once the cells from `i` on have been drawn behind `out`.
pub open spec fn drawn_from(
    cells: Seq<CellView>,
    i: int,
    out: RenderedView,
    width: nat,
    expanded: Set<int>,
) -> RenderedView
    decreases cells.len() - i,
{
    if i < 0 || i >= cells.len() {
        out
    } else {
        match cells[i] {
            CellView::Tool(first) => {
                let end = run_end(cells, i, verb_of(first.name).0);
                let group = cells.subrange(i, end);
                let open = opens(group) != expanded.contains(i);
                proof {
                    lemma_run_end(cells, i, verb_of(first.name).0);
                }
                drawn_from(
                    cells,
                    end,
                    RenderedView {
                        lines: (out.lines + grouped_lines(tools_of(group), open, width)).push(
                            blank_line(),
                        ),
                        toggles: out.toggles.push((out.lines.len() as int, i)),
                        ..out
                    },
                    width,
                    expanded,
                )
            },
            CellView::Plan(plan) => drawn_from(
                cells,
                i + 1,
                RenderedView {
                    lines: (out.lines + plan_drawn(plan, width)).push(blank_line()),
                    plan_lines: out.plan_lines + plan_places(
                        lines_of(plan.text),
                        plan_body(width),
                        (out.lines.len() + plan_top(plan).len()) as int,
                    ),
                    ..out
                },
                width,
                expanded,
            ),
            _ => drawn_from(
                cells,
                i + 1,
                if says_nothing(cells[i]) {
                    out
                } else {
                    RenderedView {
                        lines: (out.lines + cell_lines(cells[i], width)).push(blank_line()),
                        ..out
                    }
                },
                width,
                expanded,
            ),
        }
    }
}

/// An empty screen.
pub open spec fn nothing_drawn() -> RenderedView {
    RenderedView { lines: Seq::empty(), toggles: Seq::empty(), plan_lines: Seq::empty() }
}

/// The cells as they are drawn.
pub open spec fn drawn(cells: Seq<CellView>, width: nat, expanded: Set<int>) -> RenderedView {
    drawn_from(
        cells,
        0,
        nothing_drawn(),
        if width < 8 {
            8
        } else {
            width
        },
        expanded,
    )
}

/// The places in a list.
pub open spec fn as_set(v: Seq<usize>) -> Set<int> {
    Set::new(|i: int| exists|k: int| 0 <= k < v.len() && #[trigger] v[k] as int == i)
}

/// Whether `i` is in a list.
pub fn holds(v: &Vec<usize>, i: usize) -> (r: bool)
    ensures
        r == as_set(v@).contains(i as int),
{
    let mut k: usize = 0;
    while k < v.len()
        invariant
            k <= v.len(),
            forall|j: int| 0 <= j < k ==> #[trigger] v@[j] != i,
        decreases v.len() - k,
    {
        if v[k] == i {
            assert(v@[k as int] as int == i as int);
            return true;
        }
        k += 1;
    }
    false
}

/// `s` without line feeds at either end.
fn trim_feeds_both(s: &str) -> (r: String)
    ensures
        r@ == feeds_trimmed_both(s@),
{
    let v = text::to_chars(s);
    let mut i: usize = 0;
    assert(v@.skip(0) =~= v@);
    while i < v.len() && v[i] == '\n'
        invariant
            i <= v.len(),
            feeds_trimmed_start(v@) == feeds_trimmed_start(v@.skip(i as int)),
        decreases v.len() - i,
    {
        assert(v@.skip(i as int).drop_first() =~= v@.skip(i as int + 1));
        i += 1;
    }
    let rest = text::from_chars(&v, i, v.len());
    assert(rest@ =~= v@.skip(i as int));
    support::trim_feeds(rest.as_str())
}

/// Draws a cell that is no call and no plan.
fn push_cell(lines: &mut Vec<Line>, cell: &Cell, width: usize)
    ensures
        line_views(final(lines)@) == line_views(old(lines)@) + cell_lines(cell@, width as nat),
{
    let ghost start = line_views(lines@);
    match cell {
        Cell::User(s) => {
            push_block(lines, "› ", s.as_str(), Style::new().fg(USER), width);
        },
        Cell::Assistant(s) => {
            let shown = trim_feeds_both(s.as_str());
            if shown.as_str().unicode_len() > 0 {
                let more = markdown::render(shown.as_str(), width, Style::new(), "");
                append_lines(lines, more);
            } else {
                assert(start + Seq::<LineView>::empty() =~= start);
            }
        },
        Cell::Permission(prompt) => {
            let more = permission_lines(prompt, width);
            append_lines(lines, more);
        },
        Cell::Error(s) => {
            push_block(lines, "error: ", s.as_str(), Style::new().fg(FAILURE), width);
        },
        Cell::Notice(s) => {
            push_block(lines, "· ", s.as_str(), Style::new().fg(NOTICE), width);
        },
        Cell::Banner(rows) => {
            let ghost all = texts(rows@);
            let ghost more = all.map_values(|l: Seq<char>| styled_line(l, colored(THINKING)));
            let mut i: usize = 0;
            assert(start + more.take(0) =~= start);
            while i < rows.len()
                invariant
                    i <= rows.len(),
                    all == texts(rows@),
                    more == all.map_values(|l: Seq<char>| styled_line(l, colored(THINKING))),
                    line_views(lines@) == start + more.take(i as int),
                decreases rows.len() - i,
            {
                assert(all[i as int] == rows@[i as int]@);
                push_line(lines, Line::styled(rows[i].as_str(), Style::new().fg(THINKING)));
                assert(start + more.take(i as int + 1) =~= (start + more.take(i as int)).push(
                    more[i as int],
                ));
                i += 1;
            }
            assert(more.take(i as int) =~= more);
        },
        _ => {
            assert(start + Seq::<LineView>::empty() =~= start);
        },
    }
}

/// Draws the transcript. `expanded` holds the cells whose runs a person has toggled.
pub fn render(cells: &Vec<Cell>, width: u16, expanded: &Vec<usize>) -> (r: Rendered)
    ensures
        r@ == drawn(cell_views(cells@), width as nat, as_set(expanded@)),
{
    let w: usize = if width < 8 {
        8
    } else {
        width as usize
    };
    let ghost all = cell_views(cells@);
    let ghost toggled = as_set(expanded@);
    let ghost whole = drawn(all, width as nat, toggled);
    let mut out = Rendered { lines: Vec::new(), toggles: Vec::new(), plan_lines: Vec::new() };
    proof {
        assert(out@.lines =~= Seq::empty());
        assert(out@.toggles =~= Seq::empty());
        assert(out@.plan_lines =~= Seq::empty());
    }
    let mut i: usize = 0;
    while i < cells.len()
        invariant
            i <= cells.len(),
            all == cell_views(cells@),
            toggled == as_set(expanded@),
            whole == drawn_from(all, i as int, out@, w as nat, toggled),
        decreases cells.len() - i,
    {
        assert(all[i as int] == cells@[i as int]@);
        let ghost before = out@;
        match &cells[i] {
            Cell::Tool(first) => {
                let (run, _) = transcript::verb(first.name.as_str());
                let mut end: usize = i;
                while end < cells.len() && runs_with(&cells[end], run.as_str())
                    invariant
                        i <= end <= cells.len(),
                        all == cell_views(cells@),
                        run_end(all, i as int, run@) == run_end(all, end as int, run@),
                    decreases cells.len() - end,
                {
                    assert(all[end as int] == cells@[end as int]@);
                    end += 1;
                }
                assert(end < cells.len() ==> all[end as int] == cells@[end as int]@);
                proof {
                    lemma_run_end(all, i as int, run@);
                }
                out.toggles.push((out.lines.len(), i));
                assert(places(out.toggles@) =~= before.toggles.push(
                    (before.lines.len() as int, i as int),
                ));
                let open = default_open(cells, i, end) != holds(expanded, i);
                let more = group_lines(cells, i, end, open, w);
                append_lines(&mut out.lines, more);
                push_line(&mut out.lines, Line::blank());
                i = end;
            },
            Cell::Plan(plan) => {
                plan_lines(&mut out, plan, w);
                push_line(&mut out.lines, Line::blank());
                i += 1;
            },
            _ => {
                let mut nothing = false;
                if let Cell::Assistant(s) = &cells[i] {
                    let shown = trim_feeds_both(s.as_str());
                    nothing = shown.as_str().unicode_len() == 0;
                }
                if !nothing {
                    push_cell(&mut out.lines, &cells[i], w);
                    push_line(&mut out.lines, Line::blank());
                }
                i += 1;
            },
        }
    }
    out
}

// Laws.

/// No line of a wrapped text is longer than the width.
pub proof fn wrapped_lines_fit(s: Seq<char>, width: nat)
    requires
        width > 0,
    ensures
        forall|i: int| 0 <= i < wrapped(s, width).len() ==> #[trigger] wrapped(s, width)[i].len() <= width,
{
    if s.len() > 0 {
        lemma_wrapping_fits(split_on(s, ' '), width);
    }
}

spec fn fits(state: Wrapping, width: nat) -> bool {
    &&& state.current.len() <= width
    &&& forall|i: int| 0 <= i < state.lines.len() ==> #[trigger] state.lines[i].len() <= width
}

proof fn lemma_wrapping_fits(words: Seq<Seq<char>>, width: nat)
    requires
        width > 0,
    ensures
        fits(wrapping(words, width), width),
    decreases words.len(),
{
    if words.len() > 0 {
        lemma_wrapping_fits(words.drop_last(), width);
        let state = wrapping(words.drop_last(), width);
        let word = words.last();
        let at = if state.current.len() > 0 && state.current.len() + 1 + word.len() > width {
            Wrapping { lines: state.lines.push(state.current), current: Seq::empty() }
        } else {
            state
        };
        assert(fits(at, width));
        lemma_long_word_fits(at, word, width);
        reveal_strlit(" ");
    }
}

proof fn lemma_long_word_fits(state: Wrapping, word: Seq<char>, width: nat)
    requires
        width > 0,
        fits(state, width),
    ensures
        fits(with_long_word(state, word, width), width),
    decreases word.len(),
{
    if word.len() > 0 {
        lemma_long_word_fits(state, word.drop_last(), width);
    }
}

/// A text without its spaces.
pub open spec fn squeezed(s: Seq<char>) -> Seq<char>
    decreases s.len(),
{
    if s.len() == 0 {
        Seq::empty()
    } else if s.last() == ' ' {
        squeezed(s.drop_last())
    } else {
        squeezed(s.drop_last()).push(s.last())
    }
}

/// Some lines without their spaces, one after the other.
pub open spec fn all_squeezed(lines: Seq<Seq<char>>) -> Seq<char>
    decreases lines.len(),
{
    if lines.len() == 0 {
        Seq::empty()
    } else {
        all_squeezed(lines.drop_last()) + squeezed(lines.last())
    }
}

/// Wrapping loses nothing but spaces: what can be seen of the text is what can be seen of its
/// lines.
pub proof fn wrapping_keeps_every_visible_character(s: Seq<char>, width: nat)
    ensures
        all_squeezed(wrapped(s, width)) == squeezed(s),
{
    reveal_with_fuel(squeezed, 2);
    reveal_with_fuel(all_squeezed, 2);
    if s.len() == 0 {
        assert(wrapped(s, width).drop_last() =~= Seq::empty());
        assert(all_squeezed(wrapped(s, width)) =~= squeezed(s));
    } else {
        let words = split_on(s, ' ');
        let state = wrapping(words, width);
        lemma_wrapping_keeps(words, width);
        assert(wrapped(s, width).drop_last() =~= state.lines);
        lemma_pieces_squeeze(s);
    }
}

proof fn lemma_squeezed_add(a: Seq<char>, b: Seq<char>)
    ensures
        squeezed(a + b) == squeezed(a) + squeezed(b),
    decreases b.len(),
{
    if b.len() == 0 {
        assert(a + b =~= a);
        assert(squeezed(a) + squeezed(b) =~= squeezed(a));
    } else {
        lemma_squeezed_add(a, b.drop_last());
        assert((a + b).drop_last() =~= a + b.drop_last());
        assert(squeezed(a + b) =~= squeezed(a) + squeezed(b));
    }
}

proof fn lemma_pieces_squeeze(s: Seq<char>)
    ensures
        all_squeezed(split_on(s, ' ')) == squeezed(s),
    decreases s.len(),
{
    reveal_with_fuel(squeezed, 2);
    reveal_with_fuel(all_squeezed, 2);
    text::lemma_split_nonempty(s, ' ');
    let all = split_on(s, ' ');
    if s.len() == 0 {
        assert(all.drop_last() =~= Seq::<Seq<char>>::empty());
        assert(all_squeezed(all) =~= squeezed(s));
    } else {
        let init = s.drop_last();
        lemma_pieces_squeeze(init);
        text::lemma_split_nonempty(init, ' ');
        let before = split_on(init, ' ');
        if s.last() == ' ' {
            assert(all.drop_last() =~= before);
            assert(all_squeezed(all) =~= squeezed(s));
        } else {
            assert(all.drop_last() =~= before.drop_last());
            let piece = before.last();
            assert(piece.push(s.last()).drop_last() =~= piece);
            assert(all_squeezed(all) =~= squeezed(s));
        }
    }
}

spec fn seen(state: Wrapping) -> Seq<char> {
    all_squeezed(state.lines) + squeezed(state.current)
}

proof fn lemma_wrapping_keeps(words: Seq<Seq<char>>, width: nat)
    ensures
        seen(wrapping(words, width)) == all_squeezed(words),
    decreases words.len(),
{
    reveal_with_fuel(squeezed, 2);
    reveal_with_fuel(all_squeezed, 2);
    if words.len() == 0 {
        assert(seen(wrapping(words, width)) =~= all_squeezed(words));
    } else {
        lemma_wrapping_keeps(words.drop_last(), width);
        let state = wrapping(words.drop_last(), width);
        let word = words.last();
        let at = if state.current.len() > 0 && state.current.len() + 1 + word.len() > width {
            Wrapping { lines: state.lines.push(state.current), current: Seq::empty() }
        } else {
            state
        };
        if at != state {
            assert(at.lines.drop_last() =~= state.lines);
            assert(seen(at) =~= seen(state));
        }
        let next = with_wrapped_word(state, word, width);
        if word.len() > width {
            lemma_long_word_keeps(at, word, width);
        } else if at.current.len() > 0 {
            reveal_strlit(" ");
            lemma_squeezed_add(at.current + " "@, word);
            lemma_squeezed_add(at.current, " "@);
            assert(" "@.drop_last() =~= Seq::<char>::empty());
            assert(squeezed(" "@) =~= Seq::<char>::empty());
            assert(seen(next) =~= seen(at) + squeezed(word));
        } else {
            assert(at.current =~= Seq::<char>::empty());
            assert(seen(next) =~= seen(at) + squeezed(word));
        }
    }
}

proof fn lemma_long_word_keeps(state: Wrapping, word: Seq<char>, width: nat)
    ensures
        seen(with_long_word(state, word, width)) == seen(state) + squeezed(word),
    decreases word.len(),
{
    reveal_with_fuel(squeezed, 2);
    reveal_with_fuel(all_squeezed, 2);
    if word.len() == 0 {
        assert(seen(state) + squeezed(word) =~= seen(state));
    } else {
        lemma_long_word_keeps(state, word.drop_last(), width);
        let before = with_long_word(state, word.drop_last(), width);
        let next = with_long_word(state, word, width);
        let ch = word.last();
        let own = if ch == ' ' {
            Seq::<char>::empty()
        } else {
            seq![ch]
        };
        assert(squeezed(word) =~= squeezed(word.drop_last()) + own);
        if before.current.len() == width {
            assert(next.lines.drop_last() =~= before.lines);
            assert(seq![ch].drop_last() =~= Seq::<char>::empty());
            assert(squeezed(seq![ch]) =~= own);
        } else {
            assert(before.current.push(ch).drop_last() =~= before.current);
            assert(squeezed(next.current) =~= squeezed(before.current) + own);
        }
        assert(seen(next) =~= seen(before) + own);
        assert(seen(state) + squeezed(word.drop_last()) + own =~= seen(state) + (squeezed(
            word.drop_last(),
        ) + own));
    }
}

/// A run is never reported better than its worst call: a failure cannot hide behind other
/// calls.
pub proof fn a_run_reports_its_worst_call(tools: Seq<ToolCellView>, i: int, status: ToolStatus)
    requires
        0 <= i < tools.len(),
        tools[i].state == CallState::Finished(status),
    ensures
        rank_of(worst_of(tools)) >= rank_of(status),
    decreases tools.len(),
{
    if i < tools.len() - 1 {
        a_run_reports_its_worst_call(tools.drop_last(), i, status);
    }
}

/// A run that holds a failure or a refusal is open until a person closes it.
pub proof fn a_failure_keeps_its_run_open(group: Seq<CellView>, i: int, tool: ToolCellView)
    requires
        0 <= i < group.len(),
        group[i] == CellView::Tool(tool),
        tool.state == CallState::Finished(ToolStatus::Error) || tool.state == CallState::Finished(
            ToolStatus::Denied,
        ) || tool.state == CallState::Running,
    ensures
        opens(group),
{
    assert(keeps_open(group[i]));
}

/// Leaving spaces out is keeping everything else.
proof fn lemma_squeezed(s: Seq<char>)
    ensures
        squeezed(s) == s.filter(|c: char| c != ' '),
    decreases s.len(),
{
    reveal(Seq::filter);
    if s.len() > 0 {
        lemma_squeezed(s.drop_last());
    }
}

proof fn lemma_all_squeezed(lines: Seq<Seq<char>>)
    ensures
        all_squeezed(lines) == lines.flatten().filter(|c: char| c != ' '),
    decreases lines.len(),
{
    reveal(Seq::filter);
    if lines.len() > 0 {
        let init = lines.drop_last();
        let last = lines.last();
        lemma_all_squeezed(init);
        lemma_squeezed(last);
        init.lemma_flatten_push(last);
        assert(init.push(last) =~= lines);
        Seq::filter_distributes_over_add(init.flatten(), last, |c: char| c != ' ');
    }
}

/// The paragraphs of a text wrap one after the other, to no line that is too long, and lose nothing
/// but spaces.
proof fn lemma_paragraphs(paragraphs: Seq<Seq<char>>, body: nat)
    requires
        body > 0,
    ensures
        all_squeezed(paragraphs_wrapped(paragraphs, body)) == all_squeezed(paragraphs),
        forall|i: int|
            0 <= i < paragraphs_wrapped(paragraphs, body).len() ==> (#[trigger] paragraphs_wrapped(
                paragraphs,
                body,
            )[i]).len() <= body,
        paragraphs_wrapped(paragraphs, body).len() >= paragraphs.len(),
    decreases paragraphs.len(),
{
    if paragraphs.len() > 0 {
        let init = paragraphs.drop_last();
        let before = paragraphs_wrapped(init, body);
        let own = wrapped(paragraphs.last(), body);
        lemma_paragraphs(init, body);
        wrapped_lines_fit(paragraphs.last(), body);
        wrapping_keeps_every_visible_character(paragraphs.last(), body);
        lemma_all_squeezed(before);
        lemma_all_squeezed(own);
        lemma_all_squeezed(before + own);
        vstd::seq_lib::lemma_flatten_concat(before, own);
        Seq::filter_distributes_over_add(before.flatten(), own.flatten(), |c: char| c != ' ');
        assert forall|i: int| 0 <= i < (before + own).len() implies (#[trigger] (before
            + own)[i]).len() <= body by {
            if i < before.len() {
                assert((before + own)[i] == before[i]);
            } else {
                assert((before + own)[i] == own[i - before.len()]);
            }
        }
    }
}

/// A text in a block of its own is all there: behind the prefix of its first line, and as many
/// spaces on the others, stand the characters of the text in its order, in its style and on lines
/// that fit; only spaces and line feeds may be gone.
pub proof fn a_block_shows_all_of_its_text(
    prefix: Seq<char>,
    s: Seq<char>,
    style: Style,
    width: nat,
) -> (chunks: Seq<Seq<char>>)
    ensures
        chunks.len() > 0,
        chunks.len() == block_lines(prefix, s, style, width).len(),
        chunks.flatten().filter(|c: char| c != ' ') == s.filter(|c: char| c != '\n').filter(
            |c: char| c != ' ',
        ),
        forall|i: int|
            0 <= i < chunks.len() ==> {
                &&& (#[trigger] chunks[i]).len() <= body_width(width, prefix)
                &&& block_lines(prefix, s, style, width)[i].spans.len() == 2
                &&& block_lines(prefix, s, style, width)[i].spans[0].content == (if i == 0 {
                    prefix
                } else {
                    Seq::new(prefix.len(), |k: int| ' ')
                })
                &&& block_lines(prefix, s, style, width)[i].spans[0].style == style
                &&& block_lines(prefix, s, style, width)[i].spans[1].content == chunks[i]
                &&& block_lines(prefix, s, style, width)[i].spans[1].style == style
            },
{
    let paragraphs = split_on(s, '\n');
    let body = body_width(width, prefix);
    let chunks = paragraphs_wrapped(paragraphs, body);
    lemma_paragraphs(paragraphs, body);
    text::lemma_split_nonempty(s, '\n');
    lemma_all_squeezed(chunks);
    lemma_all_squeezed(paragraphs);
    crate::draw::markdown::lemma_lines_are_code(s);
    assert(repeated(' ', prefix.len()) =~= Seq::new(prefix.len(), |k: int| ' '));
    chunks
}

/// The calls among some cells are those cells that are calls, in order.
pub proof fn every_call_of_a_run_is_gathered(cells: Seq<CellView>)
    ensures
        tools_of(cells) == cells.filter(|c: CellView| c is Tool).map_values(
            |c: CellView| c->Tool_0,
        ),
    decreases cells.len(),
{
    let keep = |c: CellView| c is Tool;
    let own = |c: CellView| c->Tool_0;
    reveal(Seq::filter);
    if cells.len() > 0 {
        let init = cells.drop_last();
        every_call_of_a_run_is_gathered(init);
        if cells.last() is Tool {
            assert(init.filter(keep).push(cells.last()).map_values(own) =~= init.filter(
                keep,
            ).map_values(own).push(cells.last()->Tool_0));
        }
    }
    assert(tools_of(cells) =~= cells.filter(keep).map_values(own));
}

/// Whether one of some calls ended like this.
pub open spec fn ended_as(tools: Seq<ToolCellView>, status: ToolStatus) -> bool {
    exists|i: int|
        0 <= i < tools.len() && (#[trigger] tools[i]).state == CallState::Finished(status)
}

/// What a run is reported as is the outcome of one of its calls, or success where none has ended;
/// an error is worse than a denial, a denial than a cancellation and that than success.
pub proof fn a_run_is_reported_as_one_of_its_calls(tools: Seq<ToolCellView>)
    ensures
        worst_of(tools) == ToolStatus::Error <==> ended_as(tools, ToolStatus::Error),
        worst_of(tools) == ToolStatus::Denied <==> ended_as(tools, ToolStatus::Denied) && !ended_as(
            tools,
            ToolStatus::Error,
        ),
        worst_of(tools) == ToolStatus::Cancelled <==> ended_as(tools, ToolStatus::Cancelled)
            && !ended_as(tools, ToolStatus::Denied) && !ended_as(tools, ToolStatus::Error),
    decreases tools.len(),
{
    if tools.len() > 0 {
        a_run_is_reported_as_one_of_its_calls(tools.drop_last());
        lemma_ended_as(tools, ToolStatus::Error);
        lemma_ended_as(tools, ToolStatus::Denied);
        lemma_ended_as(tools, ToolStatus::Cancelled);
    }
}

proof fn lemma_ended_as(tools: Seq<ToolCellView>, status: ToolStatus)
    requires
        tools.len() > 0,
    ensures
        ended_as(tools, status) <==> ended_as(tools.drop_last(), status) || tools.last().state
            == CallState::Finished(status),
{
    let init = tools.drop_last();
    if ended_as(tools, status) {
        let i = choose|i: int|
            0 <= i < tools.len() && (#[trigger] tools[i]).state == CallState::Finished(status);
        if i < init.len() {
            assert(init[i].state == CallState::Finished(status));
        }
    }
    if ended_as(init, status) {
        let i = choose|i: int|
            0 <= i < init.len() && (#[trigger] init[i]).state == CallState::Finished(status);
        assert(tools[i].state == CallState::Finished(status));
    }
    if tools.last().state == CallState::Finished(status) {
        assert(tools[tools.len() - 1].state == CallState::Finished(status));
    }
}

/// No two states of a call look alike.
pub proof fn states_are_told_apart(a: CallState, b: CallState)
    requires
        marked(a).0 == marked(b).0,
    ensures
        a == b,
{
    reveal_strlit("…");
    reveal_strlit("✓");
    reveal_strlit("✗");
    reveal_strlit("⊘");
    reveal_strlit("–");
    assert("…"@[0] == '…' && "✓"@[0] == '✓' && "✗"@[0] == '✗');
    assert("⊘"@[0] == '⊘' && "–"@[0] == '–');
}

/// What a line reads as, its styles aside.
pub open spec fn reading(line: LineView) -> Seq<char> {
    line.spans.map_values(|span: SpanView| span.content).flatten()
}

/// A folded run is one line and an open one has the lines of each of its calls behind it, in order.
/// The line says how the run went, what was done and to what, a lone call by what it acted on and
/// more by how many there are; and which way it opens.
pub proof fn a_run_has_one_header(tools: Seq<ToolCellView>, open: bool, width: nat)
    requires
        tools.len() > 0,
    ensures
        ({
            let lines = grouped_lines(tools, open, width);
            let mark = marked(
                if exists|i: int|
                    0 <= i < tools.len() && #[trigger] tools[i].state == CallState::Running {
                    CallState::Running
                } else {
                    CallState::Finished(worst_of(tools))
                },
            ).0;
            let summary = if tools.len() == 1 {
                tools[0].summary
            } else {
                decimal_of(tools.len()) + " "@ + verb_of(tools[0].name).1
            };
            &&& lines.len() > 0
            &&& reading(lines[0]) == mark + " "@ + verb_of(tools[0].name).0 + (if summary.len()
                > 0 {
                " "@ + summary
            } else {
                Seq::empty()
            }) + (if open {
                "  ▾"@
            } else {
                "  ▸"@
            })
            &&& !open ==> lines.len() == 1
            &&& open ==> lines.skip(1) == tools.map_values(
                |tool: ToolCellView| call_lines(tool, tools.len() == 1, width),
            ).flatten()
        }),
{
    let lines = grouped_lines(tools, open, width);
    let f = |span: SpanView| span.content;
    let spans = lines[0].spans;
    let (mark, style) = marked(
        if any_running(tools) {
            CallState::Running
        } else {
            CallState::Finished(worst_of(tools))
        },
    );
    let title = verb_of(tools[0].name).0;
    let summary = group_summary(tools);
    let way = if open {
        "  ▾"@
    } else {
        "  ▸"@
    };
    lemma_calls_lines(tools, tools.len() == 1, width);
    if open {
        assert(lines.skip(1) =~= calls_lines(tools, tools.len() == 1, width));
    }
    let start = seq![mark + " "@, title];
    lemma_flatten_two(mark + " "@, title);
    if summary.len() > 0 {
        let said = start.push(" "@).push(summary);
        start.lemma_flatten_push(" "@);
        start.push(" "@).lemma_flatten_push(summary);
        said.lemma_flatten_push(way);
        assert(spans.map_values(f) =~= said.push(way));
        assert(reading(lines[0]) =~= mark + " "@ + title + (" "@ + summary) + way);
    } else {
        start.lemma_flatten_push(way);
        assert(spans.map_values(f) =~= start.push(way));
        assert(reading(lines[0]) =~= mark + " "@ + title + Seq::<char>::empty() + way);
    }
}

proof fn lemma_flatten_two(a: Seq<char>, b: Seq<char>)
    ensures
        seq![a, b].flatten() == a + b,
{
    seq![a].lemma_flatten_push(b);
    seq![a].lemma_flatten_one_element();
    assert(seq![a].push(b) =~= seq![a, b]);
}

proof fn lemma_calls_lines(tools: Seq<ToolCellView>, alone: bool, width: nat)
    ensures
        calls_lines(tools, alone, width) == tools.map_values(
            |tool: ToolCellView| call_lines(tool, alone, width),
        ).flatten(),
    decreases tools.len(),
{
    let f = |tool: ToolCellView| call_lines(tool, alone, width);
    if tools.len() == 0 {
        assert(tools.map_values(f) =~= Seq::empty());
    } else {
        let init = tools.drop_last();
        lemma_calls_lines(init, alone, width);
        assert(tools.map_values(f) =~= init.map_values(f).push(f(tools.last())));
        init.map_values(f).lemma_flatten_push(f(tools.last()));
    }
}

/// A diff is shown line by line, letter for letter: each line in as many pieces as it takes, all in
/// the color of its sign, which tells what was added from what was removed.
pub proof fn a_diff_is_colored_by_its_signs(prefix: Seq<char>, lines: Seq<Seq<char>>, body: nat)
    requires
        body > 0,
    ensures
        diff_lines(prefix, lines, body) == lines.map_values(
            |line: Seq<char>| diff_line(prefix, line, body),
        ).flatten(),
        forall|k: int, i: int|
            0 <= k < lines.len() && 0 <= i < diff_line(prefix, lines[k], body).len() ==> {
                let spans = (#[trigger] diff_line(prefix, lines[k], body)[i]).spans;
                &&& spans.len() == 2
                &&& spans[0].content == prefix
                &&& spans[1].style == colored(
                    if lines[k].len() > 0 && lines[k][0] == '-' {
                        Color::Red
                    } else if lines[k].len() > 0 && lines[k][0] == '+' {
                        Color::Green
                    } else {
                        THINKING
                    },
                )
            },
        forall|k: int|
            0 <= k < lines.len() ==> (#[trigger] diff_line(prefix, lines[k], body)).map_values(
                |line: LineView| line.spans[1].content,
            ).flatten() == lines[k],
    decreases lines.len(),
{
    let f = |line: Seq<char>| diff_line(prefix, line, body);
    let piece = |line: LineView| line.spans[1].content;
    assert forall|k: int| 0 <= k < lines.len() implies (#[trigger] diff_line(
        prefix,
        lines[k],
        body,
    )).map_values(piece).flatten() == lines[k] by {
        crate::draw::markdown::chunks_are_the_text(lines[k], body);
        assert(diff_line(prefix, lines[k], body).map_values(piece) =~= chunked(lines[k], body));
    }
    if lines.len() == 0 {
        assert(lines.map_values(f) =~= Seq::empty());
    } else {
        let init = lines.drop_last();
        a_diff_is_colored_by_its_signs(prefix, init, body);
        assert(lines.map_values(f) =~= init.map_values(f).push(f(lines.last())));
        init.map_values(f).lemma_flatten_push(f(lines.last()));
    }
}

/// Whether every header that can be clicked stands where the frame says: on its line stands the
/// header of the run that its cell begins.
pub open spec fn headers_stand(cells: Seq<CellView>, out: RenderedView) -> bool {
    forall|k: int|
        0 <= k < out.toggles.len() ==> header_stands(cells, out.lines, #[trigger] out.toggles[k])
}

/// Whether the header of the run that a cell begins stands on a line.
pub open spec fn header_stands(cells: Seq<CellView>, lines: Seq<LineView>, at: (int, int)) -> bool {
    &&& 0 <= at.0 < lines.len()
    &&& 0 <= at.1 < cells.len()
    &&& cells[at.1] is Tool
    &&& exists|end: int, open: bool|
        at.1 < end <= cells.len() && lines[at.0] == #[trigger] group_header(
            tools_of(cells.subrange(at.1, end)),
            open,
        )
}

/// A click on a line opens the run whose header stands there: every line that the frame calls a
/// header is one, of a run that begins at the cell it names.
pub proof fn a_click_lands_on_a_header(cells: Seq<CellView>, width: nat, expanded: Set<int>)
    ensures
        headers_stand(cells, drawn(cells, width, expanded)),
{
    lemma_headers_stand(
        cells,
        0,
        nothing_drawn(),
        if width < 8 {
            8
        } else {
            width
        },
        expanded,
    );
}

proof fn lemma_headers_stand(
    cells: Seq<CellView>,
    i: int,
    out: RenderedView,
    width: nat,
    expanded: Set<int>,
)
    requires
        0 <= i,
        headers_stand(cells, out),
    ensures
        headers_stand(cells, drawn_from(cells, i, out, width, expanded)),
    decreases cells.len() - i,
{
    if i < cells.len() {
        match cells[i] {
            CellView::Tool(first) => {
                let run = verb_of(first.name).0;
                let end = run_end(cells, i, run);
                lemma_run_end(cells, i, run);
                let group = cells.subrange(i, end);
                let open = opens(group) != expanded.contains(i);
                let own = grouped_lines(tools_of(group), open, width);
                let next = RenderedView {
                    lines: (out.lines + own).push(blank_line()),
                    toggles: out.toggles.push((out.lines.len() as int, i)),
                    ..out
                };
                every_call_of_a_run_is_gathered(group);
                lemma_some_tool(group);
                assert(next.lines[out.lines.len() as int] == group_header(tools_of(group), open));
                assert(header_stands(cells, next.lines, (out.lines.len() as int, i)));
                lemma_headers_stay(cells, out, next.lines);
                assert(headers_stand(cells, next));
                lemma_headers_stand(cells, end, next, width, expanded);
            },
            CellView::Plan(plan) => {
                let next = RenderedView {
                    lines: (out.lines + plan_drawn(plan, width)).push(blank_line()),
                    plan_lines: out.plan_lines + plan_places(
                        lines_of(plan.text),
                        plan_body(width),
                        (out.lines.len() + plan_top(plan).len()) as int,
                    ),
                    ..out
                };
                lemma_headers_stay(cells, out, next.lines);
                lemma_headers_stand(cells, i + 1, next, width, expanded);
            },
            _ => {
                if says_nothing(cells[i]) {
                    lemma_headers_stand(cells, i + 1, out, width, expanded);
                } else {
                    let next = RenderedView {
                        lines: (out.lines + cell_lines(cells[i], width)).push(blank_line()),
                        ..out
                    };
                    lemma_headers_stay(cells, out, next.lines);
                    lemma_headers_stand(cells, i + 1, next, width, expanded);
                }
            },
        }
    }
}

/// A run that begins with a call holds one.
proof fn lemma_some_tool(group: Seq<CellView>)
    requires
        group.len() > 0,
        group[0] is Tool,
    ensures
        tools_of(group).len() > 0,
    decreases group.len(),
{
    if group.len() > 1 {
        lemma_some_tool(group.drop_last());
    }
}

proof fn lemma_headers_stay(cells: Seq<CellView>, out: RenderedView, lines: Seq<LineView>)
    requires
        headers_stand(cells, out),
        out.lines.len() <= lines.len(),
        forall|k: int| 0 <= k < out.lines.len() ==> #[trigger] lines[k] == out.lines[k],
    ensures
        forall|k: int|
            0 <= k < out.toggles.len() ==> header_stands(cells, lines, #[trigger] out.toggles[k]),
{
    assert forall|k: int| 0 <= k < out.toggles.len() implies header_stands(
        cells,
        lines,
        #[trigger] out.toggles[k],
    ) by {
        assert(header_stands(cells, out.lines, out.toggles[k]));
        assert(lines[out.toggles[k].0] == out.lines[out.toggles[k].0]);
    }
}

/// A plan is shown line by line and letter for letter: each line in as many rows as it takes, all
/// under its number, and the place of each row is told with its line.
pub proof fn a_plan_is_numbered_line_by_line(lines: Seq<Seq<char>>, body: nat, at: int)
    requires
        body > 0,
    ensures
        plan_rows(lines, body) == Seq::new(
            lines.len(),
            |k: int| plan_line_rows(k, lines[k], body),
        ).flatten(),
        forall|k: int|
            0 <= k < lines.len() ==> (#[trigger] plan_line_rows(k, lines[k], body)).map_values(
                |line: LineView| line.spans[1].content,
            ).flatten() == lines[k],
        plan_places(lines, body, at).len() == plan_rows(lines, body).len(),
        forall|r: int|
            0 <= r < plan_rows(lines, body).len() ==> {
                let place = #[trigger] plan_places(lines, body, at)[r];
                &&& 0 <= place.0 < lines.len()
                &&& place.1 == at + r
                &&& plan_rows(lines, body)[r].spans.len() == 2
                &&& plan_rows(lines, body)[r].spans[0].content == right_aligned(
                    decimal_of((place.0 + 1) as nat),
                    4,
                ) + seq![' ']
            },
    decreases lines.len(),
{
    let f = |k: int| plan_line_rows(k, lines[k], body);
    let piece = |line: LineView| line.spans[1].content;
    let parts = Seq::new(lines.len(), f);
    reveal_strlit(" ");
    assert(" "@ =~= seq![' ']);
    assert forall|k: int| 0 <= k < lines.len() implies (#[trigger] plan_line_rows(
        k,
        lines[k],
        body,
    )).map_values(piece).flatten() == lines[k] by {
        crate::draw::markdown::chunks_are_the_text(lines[k], body);
        assert(plan_line_rows(k, lines[k], body).map_values(piece) =~= chunked(lines[k], body));
    }
    if lines.len() == 0 {
        assert(parts =~= Seq::empty());
    } else {
        let init = lines.drop_last();
        let n = lines.len() - 1;
        a_plan_is_numbered_line_by_line(init, body, at);
        let before = Seq::new(init.len(), |k: int| plan_line_rows(k, init[k], body));
        assert forall|k: int| 0 <= k < n implies before[k] == parts[k] by {
            assert(init[k] == lines[k]);
        }
        assert(parts =~= before.push(f(n)));
        before.lemma_flatten_push(f(n));
        let rows = plan_rows(lines, body);
        let places = plan_places(lines, body, at);
        let start = plan_rows(init, body).len();
        assert forall|r: int| 0 <= r < rows.len() implies {
            let place = #[trigger] places[r];
            &&& 0 <= place.0 < lines.len()
            &&& place.1 == at + r
            &&& rows[r].spans.len() == 2
            &&& rows[r].spans[0].content == right_aligned(decimal_of((place.0 + 1) as nat), 4)
                + seq![' ']
        } by {
            if r < start {
                assert(places[r] == plan_places(init, body, at)[r]);
                assert(rows[r] == plan_rows(init, body)[r]);
            } else {
                assert(rows[r] == plan_line_rows(n, lines[n], body)[r - start]);
            }
        }
    }
}

/// What has been drawn stays where it is while more is drawn.
proof fn lemma_drawn_grows(
    cells: Seq<CellView>,
    i: int,
    out: RenderedView,
    width: nat,
    expanded: Set<int>,
)
    requires
        0 <= i,
    ensures
        ({
            let all = drawn_from(cells, i, out, width, expanded).lines;
            out.lines.len() <= all.len() && all.take(out.lines.len() as int) == out.lines
        }),
    decreases cells.len() - i,
{
    let all = drawn_from(cells, i, out, width, expanded).lines;
    if i < cells.len() {
        let (next, then) = one_drawn(cells, i, out, width, expanded);
        if let CellView::Tool(first) = cells[i] {
            lemma_run_end(cells, i, verb_of(first.name).0);
        }
        lemma_drawn_grows(cells, then, next, width, expanded);
        assert(all == drawn_from(cells, then, next, width, expanded).lines);
        assert forall|k: int| 0 <= k < out.lines.len() implies all[k] == out.lines[k] by {
            assert(all[k] == all.take(next.lines.len() as int)[k]);
        }
        assert(all.take(out.lines.len() as int) =~= out.lines);
    } else {
        assert(all.take(out.lines.len() as int) =~= out.lines);
    }
}

/// What has been drawn once the next cell, or the run it begins, has been, and the cell behind it.
spec fn one_drawn(
    cells: Seq<CellView>,
    i: int,
    out: RenderedView,
    width: nat,
    expanded: Set<int>,
) -> (RenderedView, int) {
    match cells[i] {
        CellView::Tool(first) => {
            let end = run_end(cells, i, verb_of(first.name).0);
            let group = cells.subrange(i, end);
            let open = opens(group) != expanded.contains(i);
            (
                RenderedView {
                    lines: (out.lines + grouped_lines(tools_of(group), open, width)).push(
                        blank_line(),
                    ),
                    toggles: out.toggles.push((out.lines.len() as int, i)),
                    ..out
                },
                end,
            )
        },
        CellView::Plan(plan) => (
            RenderedView {
                lines: (out.lines + plan_drawn(plan, width)).push(blank_line()),
                plan_lines: out.plan_lines + plan_places(
                    lines_of(plan.text),
                    plan_body(width),
                    (out.lines.len() + plan_top(plan).len()) as int,
                ),
                ..out
            },
            i + 1,
        ),
        _ => (
            if says_nothing(cells[i]) {
                out
            } else {
                RenderedView {
                    lines: (out.lines + cell_lines(cells[i], width)).push(blank_line()),
                    ..out
                }
            },
            i + 1,
        ),
    }
}

/// Whether some lines stand among others from a place on.
pub open spec fn stands_at(lines: Seq<LineView>, part: Seq<LineView>, at: int) -> bool {
    0 <= at && at + part.len() <= lines.len() && lines.subrange(at, at + part.len()) == part
}

/// Everything that was said is drawn: what a person said, what went wrong and what the host had to
/// say in a block of its own, an answer as its markdown, and a question and a plan with their lines.
/// Only an answer that says nothing is not.
pub proof fn every_cell_is_drawn(cells: Seq<CellView>, width: nat, expanded: Set<int>, k: int)
    requires
        width >= 8,
        0 <= k < cells.len(),
    ensures
        ({
            let all = drawn(cells, width, expanded).lines;
            match cells[k] {
                CellView::User(s) => exists|at: int| #[trigger]
                    stands_at(all, block_lines("› "@, s, colored(Color::Cyan), width), at),
                CellView::Error(s) => exists|at: int| #[trigger]
                    stands_at(all, block_lines("error: "@, s, colored(Color::Red), width), at),
                CellView::Notice(s) => exists|at: int| #[trigger]
                    stands_at(all, block_lines("· "@, s, colored(Color::Blue), width), at),
                CellView::Assistant(s) => (exists|j: int|
                    0 <= j < s.len() && #[trigger] s[j] != '\n') ==> exists|at: int| #[trigger]
                    stands_at(
                        all,
                        rendered(read_as(feeds_trimmed_both(s)), width, plain(), ""@),
                        at,
                    ),
                CellView::Permission(prompt) => exists|at: int| #[trigger]
                    stands_at(all, prompt_lines(prompt, width), at),
                CellView::Plan(plan) => exists|at: int| #[trigger]
                    stands_at(all, plan_drawn(plan, width), at),
                _ => true,
            }
        }),
{
    lemma_cell_drawn(cells, 0, nothing_drawn(), width, expanded, k);
    let all = drawn(cells, width, expanded).lines;
    if let CellView::Assistant(s) = cells[k] {
        if exists|j: int| 0 <= j < s.len() && #[trigger] s[j] != '\n' {
            let j = choose|j: int| 0 <= j < s.len() && #[trigger] s[j] != '\n';
            lemma_feeds_leave(s, j);
        }
    }
    match cells[k] {
        CellView::Plan(plan) => {
            let at = choose|at: int| #[trigger] stands_at(all, plan_drawn(plan, width), at);
            assert(stands_at(all, plan_drawn(plan, width), at));
        },
        CellView::Tool(_) => {},
        _ => if !says_nothing(cells[k]) {
            let part = cell_lines(cells[k], width);
            let at = choose|at: int| #[trigger] stands_at(all, part, at);
            assert(stands_at(all, part, at));
        },
    }
}

/// What is no line feed is not trimmed.
proof fn lemma_feeds_leave(s: Seq<char>, j: int)
    requires
        0 <= j < s.len(),
        s[j] != '\n',
    ensures
        feeds_trimmed_both(s).len() > 0,
    decreases s.len(),
{
    if s[0] == '\n' {
        assert(s.drop_first()[j - 1] == s[j]);
        lemma_feeds_leave(s.drop_first(), j - 1);
    } else {
        lemma_end_feeds_leave(s, j);
    }
}

proof fn lemma_end_feeds_leave(s: Seq<char>, j: int)
    requires
        0 <= j < s.len(),
        s[j] != '\n',
    ensures
        support::feeds_trimmed(s).len() > 0,
    decreases s.len(),
{
    if s.last() == '\n' {
        assert(s.drop_last()[j] == s[j]);
        lemma_end_feeds_leave(s.drop_last(), j);
    }
}

proof fn lemma_cell_drawn(
    cells: Seq<CellView>,
    i: int,
    out: RenderedView,
    width: nat,
    expanded: Set<int>,
    k: int,
)
    requires
        0 <= i <= k < cells.len(),
    ensures
        ({
            let all = drawn_from(cells, i, out, width, expanded).lines;
            match cells[k] {
                CellView::Tool(_) => true,
                CellView::Plan(plan) => exists|at: int| #[trigger]
                    stands_at(all, plan_drawn(plan, width), at),
                _ => !says_nothing(cells[k]) ==> exists|at: int| #[trigger]
                    stands_at(all, cell_lines(cells[k], width), at),
            }
        }),
    decreases cells.len() - i,
{
    let (next, then) = one_drawn(cells, i, out, width, expanded);
    let all = drawn_from(cells, i, out, width, expanded).lines;
    if let CellView::Tool(first) = cells[i] {
        lemma_run_end(cells, i, verb_of(first.name).0);
        lemma_run_of_calls(cells, i, verb_of(first.name).0);
    }
    assert(all == drawn_from(cells, then, next, width, expanded).lines);
    if k >= then {
        lemma_cell_drawn(cells, then, next, width, expanded, k);
    } else if !(cells[k] is Tool) {
        let at = out.lines.len() as int;
        let part = match cells[k] {
            CellView::Plan(plan) => plan_drawn(plan, width),
            _ => cell_lines(cells[k], width),
        };
        if cells[k] is Plan || !says_nothing(cells[k]) {
            lemma_drawn_grows(cells, then, next, width, expanded);
            assert forall|j: int| 0 <= j < part.len() implies all[at + j] == part[j] by {
                assert(all[at + j] == all.take(next.lines.len() as int)[at + j]);
            }
            assert(all.subrange(at, at + part.len()) =~= part);
            assert(stands_at(all, part, at));
        }
    }
}

/// A run is made of calls.
proof fn lemma_run_of_calls(cells: Seq<CellView>, i: int, run: Seq<char>)
    requires
        0 <= i <= cells.len(),
    ensures
        forall|k: int| i <= k < run_end(cells, i, run) ==> (#[trigger] cells[k]) is Tool,
    decreases cells.len() - i,
{
    if i < cells.len() && runs(cells[i], run) {
        lemma_run_of_calls(cells, i + 1, run);
        assert forall|k: int| i <= k < run_end(cells, i, run) implies (
        #[trigger] cells[k]) is Tool by {
            if k > i {
                assert(i + 1 <= k);
            }
        }
    }
}

/// A question says which tool it is about and on what, and why it is asked; the keys that answer it
/// stand there only while it is open.
pub proof fn a_question_shows_its_keys_while_open(prompt: PermissionCellView, width: nat)
    ensures
        ({
            let lines = prompt_lines(prompt, width);
            let reason = block_lines("    "@, prompt.reason, colored(Color::DarkGray), width);
            let keys = styled_line(
                "    [y] allow  [a] always allow  [n] deny"@,
                bolded(colored(Color::Yellow)),
            );
            &&& lines.len() > reason.len()
            &&& lines[0].spans.len() == 4
            &&& lines[0].spans[1].content == prompt.name
            &&& lines[0].spans[3].content == prompt.summary
            &&& lines.subrange(1, 1 + reason.len() as int) == reason
            &&& prompt.answer is None ==> lines.last() == keys && lines.len() == reason.len() + 2
            &&& prompt.answer is Some ==> prompt_mark(prompt.answer) != prompt_mark(None)
            &&& prompt.answer == Some(PermissionAnswer::Deny) || prompt.answer == Some(
                PermissionAnswer::Allow,
            ) ==> lines.len() == reason.len() + 1
        }),
{
    reveal_strlit("?");
    reveal_strlit("⊘");
    reveal_strlit("✓");
    assert("?"@[0] == '?' && "⊘"@[0] == '⊘' && "✓"@[0] == '✓');
    let lines = prompt_lines(prompt, width);
    let reason = block_lines("    "@, prompt.reason, colored(Color::DarkGray), width);
    assert(lines.subrange(1, 1 + reason.len() as int) =~= reason);
}

/// An open call shows what it acted on and how it went, unless it is alone and its header says so;
/// all of its arguments, where they say more than that; and all of its outcome, in the colors of a
/// diff where it is one.
pub proof fn an_open_call_shows_its_outcome(tool: ToolCellView, alone: bool, width: nat)
    ensures
        ({
            let lines = call_lines(tool, alone, width);
            let is_diff = tool.name == "edit"@ || tool.name == "write_file"@ || tool.name
                == "apply_patch"@;
            let arguments = if tool.arguments != tool.summary && !is_diff {
                block_lines("      "@, tool.arguments, colored(Color::DarkGray), width)
            } else {
                Seq::empty()
            };
            let outcome = match tool.detail {
                Some(detail) => if is_diff {
                    diff_block("      "@, detail, width)
                } else {
                    block_lines("      "@, detail, colored(Color::DarkGray), width)
                },
                None => Seq::empty(),
            };
            let n: int = if alone {
                0
            } else {
                1
            };
            &&& lines.len() == n + arguments.len() + outcome.len()
            &&& !alone ==> reading(lines[0]) == "    "@ + marked(tool.state).0 + " "@ + tool.summary
            &&& lines.subrange(n, n + arguments.len()) == arguments
            &&& lines.skip(n + arguments.len()) == outcome
        }),
{
    let lines = call_lines(tool, alone, width);
    let arguments = if tool.arguments != tool.summary && !shows_diff(tool.name) {
        block_lines("      "@, tool.arguments, colored(THINKING), width)
    } else {
        Seq::empty()
    };
    let n: int = if alone {
        0
    } else {
        1
    };
    assert(lines.subrange(n, n + arguments.len()) =~= arguments);
    let outcome = match tool.detail {
        Some(detail) => if shows_diff(tool.name) {
            diff_block("      "@, detail, width)
        } else {
            block_lines("      "@, detail, colored(THINKING), width)
        },
        None => Seq::empty(),
    };
    assert(lines.skip(n + arguments.len()) =~= outcome);
    if !alone {
        let glyph = marked(tool.state).0;
        let lead = "    "@ + glyph + " "@;
        lemma_flatten_two(lead, tool.summary);
        assert(lines[0].spans.map_values(|span: SpanView| span.content) =~= seq![
            lead,
            tool.summary,
        ]);
    }
}

/// A run that ended cleanly folds away: it is open only where a call is running, failed or was
/// refused, or changed a file and says how.
pub proof fn a_clean_run_folds(group: Seq<CellView>)
    ensures
        opens(group) <==> exists|i: int|
            {
                &&& 0 <= i < group.len()
                &&& (#[trigger] group[i]) is Tool
                &&& match group[i]->Tool_0.state {
                    CallState::Running => true,
                    CallState::Finished(status) => {
                        ||| status == ToolStatus::Error
                        ||| status == ToolStatus::Denied
                        ||| status == ToolStatus::Succeeded && group[i]->Tool_0.detail is Some && (
                        group[i]->Tool_0.name == "edit"@ || group[i]->Tool_0.name == "write_file"@
                            || group[i]->Tool_0.name == "apply_patch"@)
                    },
                }
            },
{
    if opens(group) {
        let i = choose|i: int| 0 <= i < group.len() && keeps_open(#[trigger] group[i]);
        assert(group[i] is Tool);
    }
    if exists|i: int|
        {
            &&& 0 <= i < group.len()
            &&& (#[trigger] group[i]) is Tool
            &&& match group[i]->Tool_0.state {
                CallState::Running => true,
                CallState::Finished(status) => {
                    ||| status == ToolStatus::Error
                    ||| status == ToolStatus::Denied
                    ||| status == ToolStatus::Succeeded && group[i]->Tool_0.detail is Some && (
                    group[i]->Tool_0.name == "edit"@ || group[i]->Tool_0.name == "write_file"@
                        || group[i]->Tool_0.name == "apply_patch"@)
                },
            }
        } {
        let i = choose|i: int|
            {
                &&& 0 <= i < group.len()
                &&& (#[trigger] group[i]) is Tool
                &&& match group[i]->Tool_0.state {
                    CallState::Running => true,
                    CallState::Finished(status) => {
                        ||| status == ToolStatus::Error
                        ||| status == ToolStatus::Denied
                        ||| status == ToolStatus::Succeeded && group[i]->Tool_0.detail is Some && (
                        group[i]->Tool_0.name == "edit"@ || group[i]->Tool_0.name == "write_file"@
                            || group[i]->Tool_0.name == "apply_patch"@)
                    },
                }
            };
        assert(keeps_open(group[i]));
    }
}

/// A run goes on for as long as calls of its kind follow one another, and no further.
pub proof fn a_run_goes_on_as_far_as_it_can(cells: Seq<CellView>, i: int, run: Seq<char>)
    requires
        0 <= i <= cells.len(),
    ensures
        ({
            let end = run_end(cells, i, run);
            &&& i <= end <= cells.len()
            &&& forall|k: int|
                i <= k < end ==> (#[trigger] cells[k]) is Tool && verb_of(cells[k]->Tool_0.name).0
                    == run
            &&& end < cells.len() ==> !(cells[end] is Tool && verb_of(cells[end]->Tool_0.name).0
                == run)
        }),
    decreases cells.len() - i,
{
    if i < cells.len() && runs(cells[i], run) {
        a_run_goes_on_as_far_as_it_can(cells, i + 1, run);
        assert forall|k: int| i <= k < run_end(cells, i, run) implies (#[trigger] cells[k]) is Tool
            && verb_of(cells[k]->Tool_0.name).0 == run by {
            if k > i {
                assert(i + 1 <= k);
            }
        }
    }
}

/// A plan is drawn under a line that says how it stands, with all of its lines, where it was saved
/// and a blank line behind it.
pub proof fn a_plan_is_drawn_whole(plan: PlanCellView, width: nat)
    ensures
        ({
            let lines = plan_drawn(plan, width);
            let rows = plan_rows(lines_of(plan.text), plan_body(width));
            let top: int = if text::seen(plan.text).len() > 0 {
                1
            } else {
                2
            };
            let tail: int = if plan.path is Some {
                2
            } else {
                1
            };
            &&& lines.len() == top + rows.len() + tail
            &&& lines[0].spans.len() == 1
            &&& lines[0].spans[0].content == (match plan.answer {
                None => " plan "@,
                Some(PermissionAnswer::Deny) => " plan · sent back "@,
                Some(_) => " plan · approved "@,
            })
            &&& lines.subrange(top, top + rows.len()) == rows
            &&& plan.path matches Some(path) ==> lines[top + rows.len()] == styled_line(
                seq![' ', ' '] + path,
                colored(Color::DarkGray),
            )
            &&& lines.last() == blank_line()
        }),
{
    reveal_strlit("  ");
    assert("  "@ =~= seq![' ', ' ']);
    transcript::lemma_speaks(plan.text);
    let lines = plan_drawn(plan, width);
    let rows = plan_rows(lines_of(plan.text), plan_body(width));
    let top: int = if text::seen(plan.text).len() > 0 {
        1
    } else {
        2
    };
    assert(lines.subrange(top, top + rows.len()) =~= rows);
}

} // verus!

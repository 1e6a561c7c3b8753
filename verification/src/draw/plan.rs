//! The plan review: what the agent proposes, and the four things a person can do about it.
//!
//! Drawn as an overlay rather than as a transcript cell because it is read before it is
//! answered: the turn is stopped on it, so it has to stay put while somebody scrolls a page of
//! prose rather than sliding up under new output.

use vstd::prelude::*;
use crate::draw::markdown;
use crate::draw::markdown::{read_as, rendered};
use crate::style::{
    blank_line, bolded, colored, line_of, line_views, on_screen, plain, push_line, push_span,
    span_views, styled, styled_line, Color, Line, LineView, Rect, Span, SpanView, Style,
};
use crate::text;
use crate::text::{decimal_of, trimmed};

verus! {

/// Borders plus the action bar and the blank line above it.
pub const CHROME: u16 = 4;

/// The plan as lines, or the empty state.
pub open spec fn plan_body(s: Seq<char>, width: nat) -> Seq<LineView> {
    if trimmed(s).len() == 0 {
        seq![
            styled_line("  The agent proposed no plan."@, bolded(colored(Color::Yellow))),
            blank_line(),
            styled_line(
                "  Approve to start building anyway, or send it back to say what to plan."@,
                colored(Color::DarkGray),
            ),
        ]
    } else {
        rendered(read_as(s), width, plain(), "  "@)
    }
}

/// The plan as lines, or the empty state.
///
/// An agent that left plan mode without writing anything is not an error and not a blank box:
/// a person can still approve and get on with it, so the panel says what happened and keeps
/// every action live.
pub fn body(s: &str, width: usize) -> (r: Vec<Line>)
    ensures
        line_views(r@) == plan_body(s@, width as nat),
{
    let visible = text::trim(s);
    if visible.as_str().unicode_len() == 0 {
        let mut lines: Vec<Line> = Vec::new();
        assert(line_views(lines@) =~= Seq::empty());
        push_line(
            &mut lines,
            Line::styled("  The agent proposed no plan.", Style::new().fg(Color::Yellow).bold()),
        );
        push_line(&mut lines, Line::blank());
        push_line(
            &mut lines,
            Line::styled(
                "  Approve to start building anyway, or send it back to say what to plan.",
                Style::new().fg(Color::DarkGray),
            ),
        );
        assert(line_views(lines@) =~= plan_body(s@, width as nat));
        return lines;
    }
    markdown::render(s, width, Style::new(), "  ")
}

/// A key of the action bar with what it does.
pub open spec fn action(key: Seq<char>, label: Seq<char>) -> Seq<SpanView> {
    seq![
        styled(
            "  "@ + key + " "@,
            Style { fg: Some(Color::Black), bg: Some(Color::Yellow), ..plain() },
        ),
        styled(" "@ + label, colored(Color::Gray)),
    ]
}

/// The action bar: what a person can do, in the order they are likeliest to want it.
pub open spec fn action_line(more: bool) -> LineView {
    let all = action("a"@, "approve"@) + action("s"@, "request changes"@) + action("y"@, "copy"@)
        + action("q"@, "quit plan"@);
    line_of(
        if more {
            all.push(styled("   ↓ j/k scrolls"@, colored(Color::DarkGray)))
        } else {
            all
        },
    )
}

/// Appends a key of the action bar.
fn push_action(spans: &mut Vec<Span>, key: &str, label: &str)
    ensures
        span_views(final(spans)@) == span_views(old(spans)@) + action(key@, label@),
{
    let button = text::concat3("  ", key, " ");
    let said = text::concat(" ", label);
    let ghost before = span_views(spans@);
    push_span(
        spans,
        Span::styled(button.as_str(), Style::new().fg(Color::Black).bg(Color::Yellow)),
    );
    push_span(spans, Span::styled(said.as_str(), Style::new().fg(Color::Gray)));
    assert(span_views(spans@) =~= before + action(key@, label@));
}

/// The action bar.
pub fn actions(more: bool) -> (r: Line)
    ensures
        r@ == action_line(more),
{
    let mut spans: Vec<Span> = Vec::new();
    assert(span_views(spans@) =~= Seq::empty());
    push_action(&mut spans, "a", "approve");
    assert(span_views(spans@) =~= action("a"@, "approve"@));
    push_action(&mut spans, "s", "request changes");
    push_action(&mut spans, "y", "copy");
    push_action(&mut spans, "q", "quit plan");
    if more {
        push_span(
            &mut spans,
            Span::styled("   ↓ j/k scrolls", Style::new().fg(Color::DarkGray)),
        );
    }
    Line::of(spans)
}

/// The panel on a screen: most of its width and height, in the middle.
pub open spec fn panel(area: Rect) -> Rect {
    let width = if area.width - area.width / 8 > 24 {
        area.width - area.width / 8
    } else {
        24
    };
    let height = if area.height - area.height / 6 > CHROME + 2 {
        area.height - area.height / 6
    } else {
        CHROME + 2
    };
    Rect {
        x: (area.x + (area.width - width) / 2) as u16,
        y: (area.y + (area.height - height) / 2) as u16,
        width: width as u16,
        height: height as u16,
    }
}

/// How far down a plan of `lines` lines can be scrolled.
pub open spec fn last_offset(lines: nat, visible: nat) -> nat {
    if lines > visible {
        (lines - visible) as nat
    } else {
        0
    }
}

/// A window of `visible` lines, filled up with blank ones.
pub open spec fn padded_window(lines: Seq<LineView>, offset: nat, visible: nat) -> Seq<LineView> {
    Seq::new(
        visible,
        |i: int| if offset + i < lines.len() {
            lines[offset + i]
        } else {
            blank_line()
        },
    )
}

/// The title of the panel, which says how much more there is.
pub open spec fn panel_title(offset: nat, max: nat) -> Seq<char> {
    if max > 0 {
        " plan — "@ + decimal_of((max - offset) as nat) + " more lines below "@
    } else {
        " plan "@
    }
}

/// What the panel shows of a plan, scrolled as far as `scroll` says and the plan goes.
#[derive(Debug, PartialEq, Eq)]
pub struct Panel {
    pub area: Rect,
    pub title: String,
    pub lines: Vec<Line>,
    /// How far down the plan is scrolled.
    pub offset: usize,
}

/// Lays out the panel of a plan, or nothing where there is no room to read it.
pub fn draw(s: &str, scroll: usize, area: Rect) -> (r: Option<Panel>)
    requires
        on_screen(area),
    ensures
        match r {
            None => area.height < CHROME + 2 || area.width < 24,
            Some(shown) => {
                let place = panel(area);
                let lines = plan_body(s@, (place.width - 4) as nat);
                let visible = (place.height - CHROME) as nat;
                let max = last_offset(lines.len(), visible);
                &&& area.height >= CHROME + 2
                &&& area.width >= 24
                &&& shown.area == place
                &&& shown.offset == (if scroll < max {
                    scroll as nat
                } else {
                    max
                })
                &&& shown.title@ == panel_title(shown.offset as nat, max)
                &&& line_views(shown.lines@) == padded_window(
                    lines,
                    shown.offset as nat,
                    visible,
                ).push(blank_line()).push(action_line(shown.offset < max))
            },
        },
{
    if area.height < CHROME + 2 || area.width < 24 {
        return None;
    }
    let wide: u16 = area.width - area.width / 8;
    let width: u16 = if wide > 24 {
        wide
    } else {
        24
    };
    let tall: u16 = area.height - area.height / 6;
    let height: u16 = if tall > CHROME + 2 {
        tall
    } else {
        CHROME + 2
    };
    let place = Rect {
        x: area.x + (area.width - width) / 2,
        y: area.y + (area.height - height) / 2,
        width,
        height,
    };
    let mut lines = body(s, (width - 4) as usize);
    let ghost all = line_views(lines@);
    let visible: usize = (height - CHROME) as usize;
    let max: usize = if lines.len() > visible {
        lines.len() - visible
    } else {
        0
    };
    assert(all.len() == lines.len());
    let offset: usize = if scroll < max {
        scroll
    } else {
        max
    };
    let mut rest: Vec<Line> = lines.split_off(offset);
    assert(line_views(rest@) =~= all.skip(offset as int));
    let ghost tail = line_views(rest@);
    if rest.len() > visible {
        rest.truncate(visible);
    }
    assert(line_views(rest@) =~= (if tail.len() > visible {
        tail.take(visible as int)
    } else {
        tail
    }));
    let ghost kept = line_views(rest@);
    while rest.len() < visible
        invariant
            kept.len() <= rest.len() <= visible,
            line_views(rest@) == kept + Seq::new(
                (rest.len() - kept.len()) as nat,
                |i: int| blank_line(),
            ),
        decreases visible - rest.len(),
    {
        push_line(&mut rest, Line::blank());
        assert(line_views(rest@) =~= kept + Seq::new(
            (rest.len() - kept.len()) as nat,
            |i: int| blank_line(),
        ));
    }
    assert(line_views(rest@) =~= padded_window(all, offset as nat, visible as nat));
    push_line(&mut rest, Line::blank());
    push_line(&mut rest, actions(offset < max));
    let title = if max > 0 {
        let more = text::decimal((max - offset) as u64);
        text::concat3(" plan — ", more.as_str(), " more lines below ")
    } else {
        text::copy(" plan ")
    };
    Some(Panel { area: place, title, lines: rest, offset })
}

// Laws.

/// A plan can be scrolled to its end and no further: the window shows its lines in order from the
/// one it is scrolled to, and at the last place ends with the last of them.
pub proof fn a_plan_can_be_read_to_its_end(lines: Seq<LineView>, offset: nat, visible: nat)
    requires
        offset <= last_offset(lines.len(), visible),
    ensures
        padded_window(lines, offset, visible).len() == visible,
        forall|i: int|
            0 <= i < visible && offset + i < lines.len() ==> #[trigger] padded_window(
                lines,
                offset,
                visible,
            )[i] == lines[offset + i],
        forall|i: int|
            0 <= i < visible && offset + i >= lines.len() ==> #[trigger] padded_window(
                lines,
                offset,
                visible,
            )[i] == blank_line(),
        lines.len() >= visible ==> offset + visible <= lines.len(),
        lines.len() >= visible ==> last_offset(lines.len(), visible) + visible == lines.len(),
        lines.len() < visible ==> last_offset(lines.len(), visible) == 0,
{
}

/// The panel stands on the screen, where there is room for it.
pub proof fn the_panel_stays_on_the_screen(area: Rect)
    requires
        on_screen(area),
        area.width >= 24,
        area.height >= CHROME + 2,
    ensures
        ({
            let place = panel(area);
            &&& area.x <= place.x && place.x + place.width <= area.x + area.width
            &&& area.y <= place.y && place.y + place.height <= area.y + area.height
            &&& place.width >= 24 && place.height >= CHROME + 2
        }),
{
}

} // verus!

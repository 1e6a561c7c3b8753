//! The one-row turn status line, shown between the transcript and the composer only while a
//! turn is on the clock or there is a last turn worth showing.
//!
//! Layout: `⠋ working · 1m10s · ⇣43.5k`

use vstd::prelude::*;
use crate::app::Turn;
use crate::draw::status;
use crate::draw::status::tokens_shown;
use crate::style::{
    colored, line_of, push_span, span_views, styled, Color, Line, LineView, Span, Style,
};
use crate::text;
use crate::text::decimal_of;

verus! {

/// A duration, compacted: `12s`, `1m10s`, `1h10m`, `1d3h`.
pub open spec fn duration_shown(seconds: nat) -> Seq<char> {
    if seconds < 60 {
        decimal_of(seconds) + "s"@
    } else if seconds < 3_600 {
        decimal_of(seconds / 60) + "m"@ + decimal_of(seconds % 60) + "s"@
    } else if seconds < 86_400 {
        decimal_of(seconds / 3_600) + "h"@ + decimal_of((seconds / 60) % 60) + "m"@
    } else {
        decimal_of(seconds / 86_400) + "d"@ + decimal_of((seconds / 3_600) % 24) + "h"@
    }
}

/// Two numbers with their units.
fn two_units(a: u64, first: &str, b: u64, second: &str) -> (r: String)
    ensures
        r@ == decimal_of(a as nat) + first@ + decimal_of(b as nat) + second@,
{
    let x = text::decimal(a);
    let y = text::decimal(b);
    let mut r = text::concat3(x.as_str(), first, y.as_str());
    r.append(second);
    r
}

/// A duration, compacted.
pub fn format_duration(seconds: u64) -> (r: String)
    ensures
        r@ == duration_shown(seconds as nat),
{
    if seconds < 60 {
        let x = text::decimal(seconds);
        text::concat(x.as_str(), "s")
    } else if seconds < 3_600 {
        two_units(seconds / 60, "m", seconds % 60, "s")
    } else if seconds < 86_400 {
        two_units(seconds / 3_600, "h", (seconds / 60) % 60, "m")
    } else {
        two_units(seconds / 86_400, "d", (seconds / 3_600) % 24, "h")
    }
}

/// Spinner frames, one for each 120 milliseconds.
pub open spec fn spinner_frames() -> Seq<char> {
    seq!['⠋', '⠙', '⠹', '⠸', '⠼', '⠴', '⠦', '⠧', '⠇', '⠏']
}

/// The frame of the spinner after `millis` milliseconds.
pub open spec fn spinner_at(millis: nat) -> char {
    spinner_frames()[(millis / 120) as int % 10]
}

/// The frame of the spinner after `millis` milliseconds.
fn spinner(millis: u64) -> (r: char)
    ensures
        r == spinner_at(millis as nat),
{
    let frames = vec!['⠋', '⠙', '⠹', '⠸', '⠼', '⠴', '⠦', '⠧', '⠇', '⠏'];
    assert(frames@ =~= spinner_frames());
    let at: usize = ((millis / 120) % 10) as usize;
    frames[at]
}

/// How many rows the line takes: one while a turn holds the clock or there is a last-turn time
/// worth showing, none before the first turn.
pub fn rows(turn: Turn, elapsed: Option<u64>) -> (r: u16)
    ensures
        r == (if turn != Turn::Idle || elapsed is Some {
            1int
        } else {
            0
        }),
{
    if turn.is_busy() || elapsed.is_some() {
        1
    } else {
        0
    }
}

/// Used tokens, where there are any.
pub open spec fn context_part(used: nat) -> Seq<char> {
    if used > 0 {
        "· ⇣"@ + tokens_shown(used)
    } else {
        Seq::empty()
    }
}

/// The state that a busy turn is in.
pub open spec fn busy_label(turn: Turn) -> (Seq<char>, Color) {
    if turn == Turn::AwaitingPermission {
        ("waiting for approval"@, Color::Yellow)
    } else {
        ("working"@, Color::Magenta)
    }
}

/// The turn status line. Idle keeps the row as a quiet record of the finished turn.
pub open spec fn turn_line(turn: Turn, millis: nat, used: nat) -> LineView {
    let clock = duration_shown(millis / 1_000);
    let context = styled(context_part(used), colored(Color::Cyan));
    if turn == Turn::Idle {
        line_of(
            seq![
                styled("✓ done "@, colored(Color::Green)),
                styled("· worked for "@ + clock + " "@, colored(Color::DarkGray)),
                context,
            ],
        )
    } else {
        let (label, color) = busy_label(turn);
        line_of(
            seq![
                styled(seq![spinner_at(millis), ' '] + label + " "@, colored(color)),
                styled("· "@ + clock + " "@, colored(Color::DarkGray)),
                context,
            ],
        )
    }
}

/// The turn status line, `millis` milliseconds into the turn or after it took as many.
pub fn line(turn: Turn, millis: u64, used: u64) -> (r: Line)
    ensures
        r@ == turn_line(turn, millis as nat, used as nat),
{
    let clock = format_duration(millis / 1_000);
    let mut context = String::new();
    if used > 0 {
        let shown = status::tokens(used);
        context = text::concat("· ⇣", shown.as_str());
    }
    assert(context@ =~= context_part(used as nat));
    let mut spans: Vec<Span> = Vec::new();
    assert(span_views(spans@) =~= Seq::empty());
    if !turn.is_busy() {
        let worked = text::concat3("· worked for ", clock.as_str(), " ");
        push_span(&mut spans, Span::styled("✓ done ", Style::new().fg(Color::Green)));
        push_span(&mut spans, Span::styled(worked.as_str(), Style::new().fg(Color::DarkGray)));
    } else {
        let (label, color) = match turn {
            Turn::AwaitingPermission => ("waiting for approval", Color::Yellow),
            _ => ("working", Color::Magenta),
        };
        let mut state = String::new();
        state.push(spinner(millis));
        state.push(' ');
        assert(state@ =~= seq![spinner_at(millis as nat), ' ']);
        state.append(label);
        state.append(" ");
        let running = text::concat3("· ", clock.as_str(), " ");
        push_span(&mut spans, Span::styled(state.as_str(), Style::new().fg(color)));
        push_span(&mut spans, Span::styled(running.as_str(), Style::new().fg(Color::DarkGray)));
    }
    push_span(&mut spans, Span::styled(context.as_str(), Style::new().fg(Color::Cyan)));
    assert(span_views(spans@) =~= turn_line(turn, millis as nat, used as nat).spans);
    Line::of(spans)
}

// Laws.

/// A duration is told in its two largest units: whole ones of the larger, and as many of the
/// smaller as are left, so that what is told is never more than a unit of the smaller short.
pub proof fn a_duration_is_told_in_two_units(seconds: nat) -> (parts: (nat, nat))
    ensures
        ({
            let (a, b) = parts;
            &&& seconds < 60 ==> duration_shown(seconds) == decimal_of(seconds) + "s"@
            &&& 60 <= seconds < 3_600 ==> {
                &&& duration_shown(seconds) == decimal_of(a) + "m"@ + decimal_of(b) + "s"@
                &&& a * 60 + b == seconds && b < 60
            }
            &&& 3_600 <= seconds < 86_400 ==> {
                &&& duration_shown(seconds) == decimal_of(a) + "h"@ + decimal_of(b) + "m"@
                &&& a * 3_600 + b * 60 <= seconds < a * 3_600 + b * 60 + 60 && b < 60
            }
            &&& 86_400 <= seconds ==> {
                &&& duration_shown(seconds) == decimal_of(a) + "d"@ + decimal_of(b) + "h"@
                &&& a * 86_400 + b * 3_600 <= seconds < a * 86_400 + b * 3_600 + 3_600 && b < 24
            }
        }),
{
    if seconds < 3_600 {
        (seconds / 60, seconds % 60)
    } else if seconds < 86_400 {
        (seconds / 3_600, (seconds / 60) % 60)
    } else {
        (seconds / 86_400, (seconds / 3_600) % 24)
    }
}

/// A finished turn says how long it took, and one under way how long it has been, whether it waits
/// for a person or works; both say what they have used, where they have used anything.
pub proof fn a_turn_shows_its_clock(turn: Turn, millis: nat, used: nat)
    ensures
        ({
            let spans = turn_line(turn, millis, used).spans;
            let clock = duration_shown(millis / 1_000);
            &&& spans.len() == 3
            &&& spans[1].content == (if turn == Turn::Idle {
                "· worked for "@
            } else {
                "· "@
            }) + clock + " "@
            &&& spans[2].content.len() > 0 ==> used > 0
            &&& used > 0 ==> spans[2].content == "· ⇣"@ + tokens_shown(used)
            &&& turn == Turn::AwaitingPermission <==> spans[0].style == colored(Color::Yellow)
            &&& turn == Turn::Idle <==> spans[0].style == colored(Color::Green)
        }),
{
}

} // verus!

//! The one-line header bar: where the session lives on the left, what it is spending the
//! model's attention on the right.
//!
//! The context-window figure answers "how much of this conversation can still fit". It uses
//! input tokens because that is the axis the window constrains.

use vstd::prelude::*;
use crate::draw::status;
use crate::draw::status::tokens_shown;
use crate::style::{
    colored, line_of, push_span, raw, span_views, styled, Color, Line, LineView, Span, Style,
};
use crate::text;
use crate::text::{after_prefix, opt, repeated};

verus! {

/// Columns kept clear at the right edge so the usage figure never sits flush against the
/// border.
pub const RIGHT_MARGIN: usize = 1;

/// How many columns the path may take: what the figure leaves, and no more than half.
pub open spec fn left_budget(width: nat, right: nat) -> nat {
    let free = if width > right + RIGHT_MARGIN + 1 {
        (width - (right + RIGHT_MARGIN + 1)) as nat
    } else {
        0
    };
    if free < width / 2 {
        free
    } else {
        width / 2
    }
}

/// A path that does not fit loses its head, since its tail is the part a person recognises.
pub open spec fn truncated(cwd: Seq<char>, width: nat, right: Seq<char>) -> Seq<char> {
    let budget = left_budget(width, right.len());
    if cwd.len() <= budget {
        cwd
    } else if budget == 0 {
        "…"@
    } else {
        "…"@ + cwd.skip(cwd.len() - (budget - 1))
    }
}

/// The path as the bar has room for it.
pub fn truncate(cwd: &str, width: u16, right: &str) -> (r: String)
    ensures
        r@ == truncated(cwd@, width as nat, right@),
{
    let w: usize = width as usize;
    let shown: usize = right.unicode_len();
    let free: usize = if w > RIGHT_MARGIN + 1 && w - (RIGHT_MARGIN + 1) > shown {
        w - (RIGHT_MARGIN + 1) - shown
    } else {
        0
    };
    let half: usize = w / 2;
    let budget: usize = if free < half {
        free
    } else {
        half
    };
    let v = text::to_chars(cwd);
    if v.len() <= budget {
        return text::copy(cwd);
    }
    if budget == 0 {
        return text::copy("…");
    }
    let tail = text::from_chars(&v, v.len() - (budget - 1), v.len());
    assert(tail@ =~= cwd@.skip(cwd@.len() - (budget - 1)));
    text::concat("…", tail.as_str())
}

/// A path with the home directory shortened.
pub open spec fn homed(cwd: Seq<char>, home: Option<Seq<char>>) -> Seq<char> {
    match home {
        Some(home) => match after_prefix(cwd, home) {
            Some(rest) => "~"@ + rest,
            None => cwd,
        },
        None => cwd,
    }
}

/// The context figure: what is used of the window, as far as either is known.
pub open spec fn figure(used: nat, window: Option<u64>) -> Seq<char> {
    if used > 0 {
        match window {
            Some(window) => tokens_shown(used) + "/"@ + tokens_shown(window as nat),
            None => tokens_shown(used),
        }
    } else {
        match window {
            Some(window) => "0/"@ + tokens_shown(window as nat),
            None => Seq::empty(),
        }
    }
}

/// The columns between the path, which a blank stands before, and the figure, which a margin
/// stands behind.
pub open spec fn gap(width: nat, left: nat, right: nat) -> nat {
    if width > 1 + left + right + RIGHT_MARGIN {
        (width - (1 + left + right + RIGHT_MARGIN)) as nat
    } else {
        0
    }
}

/// The header bar.
pub open spec fn header_line(
    cwd: Seq<char>,
    home: Option<Seq<char>>,
    used: nat,
    window: Option<u64>,
    width: u16,
) -> LineView {
    let right = figure(used, window);
    let left = truncated(homed(cwd, home), width as nat, right);
    line_of(
        seq![
            styled(" "@ + left, colored(Color::DarkGray)),
            raw(repeated(' ', gap(width as nat, left.len(), right.len()))),
            styled(right, colored(Color::Cyan)),
        ],
    )
}

/// The context figure.
fn context_figure(used: u64, window: Option<u64>) -> (r: String)
    ensures
        r@ == figure(used as nat, window),
{
    match window {
        Some(window) => {
            let all = status::tokens(window);
            if used > 0 {
                let some = status::tokens(used);
                text::concat3(some.as_str(), "/", all.as_str())
            } else {
                text::concat("0/", all.as_str())
            }
        },
        None => if used > 0 {
            status::tokens(used)
        } else {
            let none = String::new();
            assert(none@ =~= Seq::<char>::empty());
            none
        },
    }
}

/// The header bar.
pub fn line(cwd: &str, home: Option<String>, used: u64, window: Option<u64>, width: u16) -> (r:
    Line)
    ensures
        r@ == header_line(cwd@, opt(home), used as nat, window, width),
{
    let mut shown = text::copy(cwd);
    if let Some(home) = &home {
        if let Some(rest) = text::strip_prefix(cwd, home.as_str()) {
            shown = text::concat("~", rest.as_str());
        }
    }
    let right = context_figure(used, window);
    let left = truncate(shown.as_str(), width, right.as_str());
    let w: usize = width as usize;
    let a: usize = left.as_str().unicode_len();
    let b: usize = right.as_str().unicode_len();
    let pad: usize = if w > a && w - a > b && w - a - b > 1 + RIGHT_MARGIN {
        w - a - b - RIGHT_MARGIN - 1
    } else {
        0
    };
    let lead = text::concat(" ", left.as_str());
    let spaces = text::repeat(' ', pad);
    let mut spans: Vec<Span> = Vec::new();
    assert(span_views(spans@) =~= Seq::empty());
    push_span(&mut spans, Span::styled(lead.as_str(), Style::new().fg(Color::DarkGray)));
    push_span(&mut spans, Span::raw(spaces.as_str()));
    push_span(&mut spans, Span::styled(right.as_str(), Style::new().fg(Color::Cyan)));
    assert(span_views(spans@) =~= seq![
        styled(" "@ + left@, colored(Color::DarkGray)),
        raw(spaces@),
        styled(right@, colored(Color::Cyan)),
    ]);
    Line::of(spans)
}

/// The figure never sits flush against the border: where the bar is wide enough for both sides,
/// all of it but the margin is drawn on, and the figure ends there.
pub proof fn the_margin_stays_clear(
    cwd: Seq<char>,
    home: Option<Seq<char>>,
    used: nat,
    window: Option<u64>,
    width: u16,
)
    requires
        figure(used, window).len() + RIGHT_MARGIN + 2 <= width,
    ensures
        ({
            let spans = header_line(cwd, home, used, window, width).spans;
            spans[0].content.len() + spans[1].content.len() + spans[2].content.len() + RIGHT_MARGIN
                == width
        }),
{
    reveal_strlit(" ");
    reveal_strlit("…");
}

/// A path that does not fit loses its head and nothing else: what is shown is the path, or an
/// ellipsis and its tail, and takes no more than half the bar.
pub proof fn a_path_keeps_its_tail(cwd: Seq<char>, width: nat, right: Seq<char>)
    requires
        width >= right.len() + RIGHT_MARGIN + 2,
    ensures
        ({
            let shown = truncated(cwd, width, right);
            &&& shown.len() <= width / 2
            &&& shown.len() + right.len() + RIGHT_MARGIN + 1 <= width
            &&& shown == cwd || (shown.len() > 0 && shown[0] == '…' && shown.skip(1) == cwd.skip(
                cwd.len() - (shown.len() - 1),
            ))
            &&& cwd.len() <= width / 2 && cwd.len() + right.len() + RIGHT_MARGIN + 1 <= width
                ==> shown == cwd
        }),
{
    reveal_strlit("…");
    let shown = truncated(cwd, width, right);
    let budget = left_budget(width, right.len());
    if cwd.len() > budget && budget > 0 {
        assert(shown.skip(1) =~= cwd.skip(cwd.len() - (budget - 1)));
    }
}

/// A path below the home directory is shown with a tilde in its place, and any other as it is.
pub proof fn home_is_a_tilde(home: Seq<char>, rest: Seq<char>, cwd: Seq<char>)
    ensures
        homed(home + rest, Some(home)) == seq!['~'] + rest,
        homed(cwd, None) == cwd,
        !(cwd.len() >= home.len() && cwd.take(home.len() as int) == home) ==> homed(cwd, Some(home))
            == cwd,
{
    reveal_strlit("~");
    assert("~"@ =~= seq!['~']);
    let all = home + rest;
    assert(all.subrange(0, home.len() as int) =~= home);
    assert(all.skip(home.len() as int) =~= rest);
    if cwd.len() >= home.len() {
        assert(cwd.subrange(0, home.len() as int) =~= cwd.take(home.len() as int));
    }
}

} // verus!

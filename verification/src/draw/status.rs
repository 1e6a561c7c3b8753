//! The one-line status bar.

use vstd::prelude::*;
use crate::app::{SessionMode, Turn};
use crate::protocol::{ApprovalPolicy, ReasoningEffort};
use crate::slash;
use crate::slash::{level_word, policy_word};
use crate::style::{
    bolded, colored, line_of, push_span, span_views, styled, Color, Line, LineView, Span, SpanView,
    Style,
};
use crate::text;
use crate::text::{decimal_of, opt};

verus! {

// Rounding a ratio the way a 64-bit float does, without floats.

/// `num / den` rounded to the nearest whole number, a half to the even one.
pub open spec fn half_even(num: nat, den: nat) -> nat {
    let q = num / den;
    let r = num % den;
    if 2 * r < den || (2 * r == den && q % 2 == 0) {
        q
    } else {
        q + 1
    }
}

/// Two to the power of `n`.
pub open spec fn two_to(n: nat) -> nat
    decreases n,
{
    if n == 0 {
        1
    } else {
        2 * two_to((n - 1) as nat)
    }
}

/// The power of two that `num / den`, at least one, lies at or above.
pub open spec fn binade(num: nat, den: nat) -> nat
    decreases num - den,
    when den > 0
{
    if num < 2 * den {
        0
    } else {
        1 + binade(num, 2 * den)
    }
}

/// How many bits behind the point a 64-bit float has of `num / den`, which lies between one
/// and two to the power of fifty-three.
pub open spec fn bits_behind_point(num: nat, den: nat) -> nat {
    (52 - binade(num, den)) as nat
}

/// `num / den` as a 64-bit float has it, in units of its last bit.
pub open spec fn float_units(num: nat, den: nat) -> nat {
    half_even(num * two_to(bits_behind_point(num, den)), den)
}

/// A count as a 64-bit float has it.
pub open spec fn float_count(count: nat) -> nat {
    if count < two_to(53) {
        count
    } else {
        let unit = two_to((binade(count, 1) - 52) as nat);
        half_even(count, unit) * unit
    }
}

/// The tenths of `count / unit`, computed in 64-bit floats and shown with one digit behind the
/// point.
pub open spec fn shown_tenths(count: nat, unit: nat) -> nat {
    let whole = float_count(count);
    half_even(10 * float_units(whole, unit), two_to(bits_behind_point(whole, unit)))
}

/// A number of tenths with its point.
pub open spec fn with_point(tenths: nat) -> Seq<char> {
    decimal_of(tenths / 10) + "."@ + decimal_of(tenths % 10)
}

/// A count of tokens as it is shown.
pub open spec fn tokens_shown(count: nat) -> Seq<char> {
    if count < 10_000 {
        decimal_of(count)
    } else if count < 1_000_000 {
        with_point(shown_tenths(count, 1_000)) + "k"@
    } else {
        with_point(shown_tenths(count, 1_000_000)) + "M"@
    }
}

/// `num / den` rounded to the nearest whole number, a half to the even one.
fn round_half_even(num: u128, den: u128) -> (r: u128)
    requires
        den > 0,
        den < 0x1_0000_0000_0000_0000,
    ensures
        r == half_even(num as nat, den as nat),
        r <= num / den + 1,
{
    let q: u128 = num / den;
    let r: u128 = num % den;
    if 2 * r < den || (2 * r == den && q % 2 == 0) {
        q
    } else {
        proof {
            if den == 1 {
                assert(num % den == 0);
            } else {
                assert(q <= num / 2) by (nonlinear_arith)
                    requires
                        q == num / den,
                        den >= 2,
                ;
            }
        }
        q + 1
    }
}

/// Powers of two grow.
proof fn lemma_two_to_grows(a: nat, b: nat)
    requires
        a <= b,
    ensures
        1 <= two_to(a) <= two_to(b),
    decreases b,
{
    if a < b {
        lemma_two_to_grows(a, (b - 1) as nat);
    } else if a > 0 {
        lemma_two_to_grows((a - 1) as nat, (a - 1) as nat);
    }
}

/// The powers that are needed as numbers.
proof fn lemma_two_to_values()
    ensures
        two_to(12) == 0x1000,
        two_to(52) == 0x10_0000_0000_0000,
        two_to(53) == 0x20_0000_0000_0000,
        two_to(64) == 0x1_0000_0000_0000_0000,
{
    reveal_with_fuel(two_to, 13);
    assert(two_to(12) == 0x1000);
    assert(two_to(4) == 16);
    lemma_two_to_add(12, 12);
    assert(two_to(24) == 0x100_0000);
    lemma_two_to_add(24, 24);
    assert(two_to(48) == 0x1_0000_0000_0000);
    lemma_two_to_add(48, 4);
    assert(two_to(52) == 0x10_0000_0000_0000);
    assert(two_to(53) == 2 * two_to(52));
    lemma_two_to_add(52, 12);
}

proof fn lemma_two_to_add(a: nat, b: nat)
    ensures
        two_to(a + b) == two_to(a) * two_to(b),
    decreases b,
{
    if b > 0 {
        lemma_two_to_add(a, (b - 1) as nat);
        let x = two_to(a);
        let y = two_to((b - 1) as nat);
        assert(2 * (x * y) == x * (2 * y)) by (nonlinear_arith);
    } else {
        assert(two_to(a) * 1 == two_to(a));
    }
}

/// Two to the power of `n`.
fn power_of_two(n: u64) -> (r: u128)
    requires
        n <= 64,
    ensures
        r == two_to(n as nat),
        1 <= r <= 0x1_0000_0000_0000_0000,
{
    let mut r: u128 = 1;
    let mut i: u64 = 0;
    proof {
        lemma_two_to_values();
    }
    while i < n
        invariant
            i <= n <= 64,
            r == two_to(i as nat),
            r <= two_to(64),
            two_to(64) == 0x1_0000_0000_0000_0000,
        decreases n - i,
    {
        proof {
            lemma_two_to_grows((i + 1) as nat, 64);
        }
        r = r * 2;
        i += 1;
    }
    proof {
        lemma_two_to_grows(n as nat, 64);
    }
    r
}

/// The power of two that `num / den`, at least one, lies at or above.
fn binade_of(num: u128, den: u128) -> (r: u64)
    requires
        0 < den <= num <= 0x1_0000_0000_0000_0000,
    ensures
        r == binade(num as nat, den as nat),
        r <= 64,
        two_to(r as nat) * den <= num,
{
    let mut d: u128 = den;
    let mut e: u64 = 0;
    proof {
        lemma_two_to_values();
        let one = two_to(0);
        assert(one * den == den) by (nonlinear_arith)
            requires
                one == 1,
        ;
    }
    while num >= 2 * d
        invariant
            0 < den <= d <= num <= 0x1_0000_0000_0000_0000,
            e <= 64,
            d == two_to(e as nat) * den,
            binade(num as nat, den as nat) == e + binade(num as nat, d as nat),
            two_to(64) == 0x1_0000_0000_0000_0000,
        decreases num - d,
    {
        proof {
            let p = two_to(e as nat);
            assert(2 * (p * den) == (2 * p) * den) by (nonlinear_arith);
            if e == 64 {
                assert(p * den >= p) by (nonlinear_arith)
                    requires
                        den >= 1,
                        p >= 0,
                ;
            }
        }
        d = 2 * d;
        e += 1;
    }
    e
}

/// A count as a 64-bit float has it.
fn count_as_float(count: u64) -> (r: u128)
    ensures
        r == float_count(count as nat),
        r <= 0x1_0000_0000_0000_0000,
        count >= 1_000_000 ==> r >= 1_000_000,
        count < 1_000_000 ==> r == count,
{
    proof {
        lemma_two_to_values();
    }
    if count < 0x20_0000_0000_0000 {
        return count as u128;
    }
    let e: u64 = binade_of(count as u128, 1);
    proof {
        lemma_binade_at_least(count as nat, 1, 53);
        lemma_two_to_grows(e as nat, 64);
        if e == 64 {
            assert(two_to(64) * 1 == two_to(64));
        }
        assert(e <= 63);
        lemma_two_to_grows((e - 52) as nat, 12);
    }
    let unit: u128 = power_of_two(e - 52);
    let units: u128 = round_half_even(count as u128, unit);
    proof {
        let c = count as nat;
        let u = unit as nat;
        assert(e <= 63);
        lemma_two_to_grows((e - 52) as nat, 12);
        lemma_rounding_is_close(c, u);
        lemma_round_up_bound(c, u, (e - 52) as nat);
        assert(units * u <= 0x1_0000_0000_0000_0000);
        assert(units * u + u >= c);
    }
    units * unit
}

/// A count of at least a power of two lies at or above it.
proof fn lemma_binade_at_least(num: nat, den: nat, n: nat)
    requires
        den > 0,
        num >= two_to(n) * den,
    ensures
        binade(num, den) >= n,
    decreases n,
{
    if n > 0 {
        let p = two_to((n - 1) as nat);
        assert((2 * p) * den == p * (2 * den)) by (nonlinear_arith);
        lemma_two_to_grows(0, (n - 1) as nat);
        assert(p * (2 * den) >= 2 * den) by (nonlinear_arith)
            requires
                p >= 1,
                den > 0,
        ;
        lemma_binade_at_least(num, 2 * den, (n - 1) as nat);
    }
}

/// Rounding moves a number by less than one unit.
proof fn lemma_rounding_is_close(num: nat, den: nat)
    requires
        den > 0,
    ensures
        half_even(num, den) * den <= num + den,
        half_even(num, den) * den + den > num,
        num / den <= half_even(num, den) <= num / den + 1,
{
    let q = num / den;
    assert(num == q * den + num % den) by (nonlinear_arith)
        requires
            den > 0,
            q == num / den,
    ;
    assert(num % den < den);
    assert((q + 1) * den == q * den + den) by (nonlinear_arith);
}

/// What is rounded to a multiple of a small power of two stays within two to the power of
/// sixty-four.
proof fn lemma_round_up_bound(num: nat, unit: nat, k: nat)
    requires
        num < 0x1_0000_0000_0000_0000,
        unit == two_to(k),
        k <= 12,
    ensures
        half_even(num, unit) * unit <= 0x1_0000_0000_0000_0000,
{
    lemma_two_to_values();
    lemma_two_to_grows(k, 12);
    lemma_two_to_add(k, (64 - k) as nat);
    let top = two_to((64 - k) as nat);
    assert(unit * top == 0x1_0000_0000_0000_0000);
    lemma_rounding_is_close(num, unit);
    let q = num / unit;
    assert(q < top) by (nonlinear_arith)
        requires
            num < unit * top,
            q == num / unit,
            unit > 0,
    ;
    let h = half_even(num, unit);
    assert(h <= top);
    assert(h * unit <= unit * top) by (nonlinear_arith)
        requires
            h <= top,
            unit > 0,
    ;
}

/// The tenths of `count / unit` as they are shown.
fn tenths(count: u64, unit: u64) -> (r: u128)
    requires
        (unit == 1_000 && count < 1_000_000) || unit == 1_000_000,
        count >= unit,
    ensures
        r == shown_tenths(count as nat, unit as nat),
{
    let whole: u128 = count_as_float(count);
    let den: u128 = unit as u128;
    let e: u64 = binade_of(whole, den);
    proof {
        lemma_two_to_values();
        let p = two_to(e as nat);
        if e > 52 {
            lemma_two_to_grows(53, e as nat);
            assert(p * den >= 0x20_0000_0000_0000 * den) by (nonlinear_arith)
                requires
                    p >= 0x20_0000_0000_0000,
                    den >= 0,
            ;
        }
    }
    let bits: u64 = 52 - e;
    let scale: u128 = power_of_two(bits);
    proof {
        lemma_two_to_grows(bits as nat, 52);
        assert(whole * scale <= 0x1_0000_0000_0000_0000 * 0x10_0000_0000_0000) by (nonlinear_arith)
            requires
                whole <= 0x1_0000_0000_0000_0000,
                scale <= 0x10_0000_0000_0000,
                whole >= 0,
                scale >= 0,
        ;
    }
    let scaled: u128 = whole * scale;
    let units: u128 = round_half_even(scaled, den);
    assert(scaled / den <= scaled) by (nonlinear_arith)
        requires
            den >= 1,
    ;
    round_half_even(10 * units, scale)
}

/// A number of tenths with its point.
fn point(tenths: u128) -> (r: String)
    ensures
        r@ == with_point(tenths as nat),
{
    let whole = text::wide_decimal(tenths / 10);
    let rest = text::wide_decimal(tenths % 10);
    text::concat3(whole.as_str(), ".", rest.as_str())
}

/// `842`, `12.3k`, `1.2M`. Thousands once past four digits, so the number keeps a stable width
/// while a turn runs and does not jitter the bar around it.
pub fn tokens(count: u64) -> (r: String)
    ensures
        r@ == tokens_shown(count as nat),
{
    if count < 10_000 {
        text::decimal(count)
    } else if count < 1_000_000 {
        let shown = point(tenths(count, 1_000));
        text::concat(shown.as_str(), "k")
    } else {
        let shown = point(tenths(count, 1_000_000));
        text::concat(shown.as_str(), "M")
    }
}

/// What the status bar is drawn from.
#[derive(Debug, PartialEq, Eq)]
pub struct Status {
    pub turn: Turn,
    pub approval: ApprovalPolicy,
    /// What the agent last said the session does with a prompt.
    pub mode: SessionMode,
    pub provider: Option<String>,
    pub model: String,
    pub effort: Option<ReasoningEffort>,
    pub flash: Option<String>,
}

/// What the bar says of the turn.
pub open spec fn turn_span(turn: Turn) -> SpanView {
    match turn {
        Turn::Idle => styled(" ready "@, colored(Color::Green)),
        Turn::Running => styled(" working "@, colored(Color::Magenta)),
        Turn::AwaitingPermission => styled(
            " blocked — awaiting approval "@,
            bolded(colored(Color::Yellow)),
        ),
    }
}

/// A part of the bar behind the first.
pub open spec fn bar_span(said: Seq<char>, color: Color) -> SpanView {
    styled("· "@ + said + " "@, colored(color))
}

/// `spans` with a part behind them where there is something to say.
pub open spec fn with_part(spans: Seq<SpanView>, said: Option<Seq<char>>, color: Color) -> Seq<
    SpanView,
> {
    match said {
        Some(said) => spans.push(bar_span(said, color)),
        None => spans,
    }
}

/// The status bar: the state, the policy, whether the session plans, which route and model
/// answer, how hard the model thinks, and what was just done on the person's behalf.
pub open spec fn status_line(
    turn: Turn,
    approval: ApprovalPolicy,
    mode: SessionMode,
    provider: Option<Seq<char>>,
    model: Seq<char>,
    effort: Option<ReasoningEffort>,
    flash: Option<Seq<char>>,
) -> LineView {
    let state = seq![turn_span(turn)];
    let governed = with_part(
        state,
        Some(policy_word(approval)),
        if approval == ApprovalPolicy::Never {
            Color::Red
        } else {
            Color::Cyan
        },
    );
    let planning = with_part(
        governed,
        if mode == SessionMode::Plan {
            Some("plan"@)
        } else {
            None
        },
        Color::Yellow,
    );
    let routed = with_part(planning, provider, Color::Cyan);
    let answering = with_part(
        routed,
        if model.len() > 0 {
            Some(model)
        } else {
            None
        },
        Color::Cyan,
    );
    let thinking = with_part(
        answering,
        match effort {
            Some(level) => Some(level_word(Some(level))),
            None => None,
        },
        Color::Blue,
    );
    line_of(with_part(thinking, flash, Color::Green))
}

/// Appends a part to the bar.
fn push_part(spans: &mut Vec<Span>, said: &str, color: Color)
    ensures
        span_views(final(spans)@) == span_views(old(spans)@).push(bar_span(said@, color)),
{
    let part = text::concat3("· ", said, " ");
    push_span(spans, Span::styled(part.as_str(), Style::new().fg(color)));
}

impl Status {
    /// The status bar.
    pub fn line(&self) -> (r: Line)
        ensures
            r@ == status_line(
                self.turn,
                self.approval,
                self.mode,
                opt(self.provider),
                self.model@,
                self.effort,
                opt(self.flash),
            ),
    {
        let mut spans: Vec<Span> = Vec::new();
        assert(span_views(spans@) =~= Seq::empty());
        let state = match self.turn {
            Turn::Idle => Span::styled(" ready ", Style::new().fg(Color::Green)),
            Turn::Running => Span::styled(" working ", Style::new().fg(Color::Magenta)),
            Turn::AwaitingPermission => Span::styled(
                " blocked — awaiting approval ",
                Style::new().fg(Color::Yellow).bold(),
            ),
        };
        push_span(&mut spans, state);
        assert(span_views(spans@) =~= seq![turn_span(self.turn)]);
        let color = match self.approval {
            ApprovalPolicy::Never => Color::Red,
            _ => Color::Cyan,
        };
        push_part(&mut spans, slash::policy_name(self.approval), color);
        if self.mode == SessionMode::Plan {
            push_part(&mut spans, "plan", Color::Yellow);
        }
        if let Some(provider) = &self.provider {
            push_part(&mut spans, provider.as_str(), Color::Cyan);
        }
        if self.model.as_str().unicode_len() > 0 {
            push_part(&mut spans, self.model.as_str(), Color::Cyan);
        }
        if let Some(level) = self.effort {
            push_part(&mut spans, slash::effort_name(Some(level)), Color::Blue);
        }
        if let Some(flash) = &self.flash {
            push_part(&mut spans, flash.as_str(), Color::Green);
        }
        Line::of(spans)
    }
}

// Laws.

/// Rounding goes to the nearest whole number, and a half to the even one.
pub proof fn rounding_goes_to_the_nearest(num: nat, den: nat)
    requires
        den > 0,
    ensures
        2 * half_even(num, den) * den <= 2 * num + den,
        2 * num <= 2 * half_even(num, den) * den + den,
        (2 * half_even(num, den) * den == 2 * num + den || 2 * num == 2 * half_even(num, den) * den
            + den) ==> half_even(num, den) % 2 == 0,
{
    let q = num / den;
    let r = num % den;
    vstd::arithmetic::div_mod::lemma_fundamental_div_mod(num as int, den as int);
    assert(den * q + r == num);
    assert(2 * q * den == 2 * (den * q)) by (nonlinear_arith);
    assert(2 * (q + 1) * den == 2 * (den * q) + 2 * den) by (nonlinear_arith);
    assert(r < den);
}

/// A number of tenths is shown as its whole part and one digit behind the point.
pub proof fn tenths_have_one_digit_behind_the_point(tenths: nat) -> (parts: (nat, nat))
    ensures
        parts.0 * 10 + parts.1 == tenths,
        parts.1 < 10,
        with_point(tenths) == decimal_of(parts.0) + seq!['.'] + decimal_of(parts.1),
        decimal_of(parts.1).len() == 1,
{
    reveal_strlit(".");
    assert("."@ =~= seq!['.']);
    (tenths / 10, tenths % 10)
}

/// The bar says what there is to say and nothing else, in one order: the turn, the policy, that the
/// session plans, the route, the model, the level and what was just done.
pub proof fn the_bar_says_what_there_is(
    turn: Turn,
    approval: ApprovalPolicy,
    mode: SessionMode,
    provider: Option<Seq<char>>,
    model: Seq<char>,
    effort: Option<ReasoningEffort>,
    flash: Option<Seq<char>>,
)
    ensures
        ({
            let said = status_line(
                turn,
                approval,
                mode,
                provider,
                model,
                effort,
                flash,
            ).spans.map_values(|span: SpanView| span.content);
            let part = |s: Seq<char>| seq!["· "@ + s + " "@];
            said == seq![turn_span(turn).content] + part(policy_word(approval)) + (if mode
                == SessionMode::Plan {
                part("plan"@)
            } else {
                Seq::empty()
            }) + (match provider {
                Some(route) => part(route),
                None => Seq::empty(),
            }) + (if model.len() > 0 {
                part(model)
            } else {
                Seq::empty()
            }) + (match effort {
                Some(level) => part(level_word(Some(level))),
                None => Seq::empty(),
            }) + (match flash {
                Some(news) => part(news),
                None => Seq::empty(),
            })
        }),
{
    let said = status_line(turn, approval, mode, provider, model, effort, flash).spans.map_values(
        |span: SpanView| span.content,
    );
    let part = |s: Seq<char>| seq!["· "@ + s + " "@];
    assert(said =~= seq![turn_span(turn).content] + part(policy_word(approval)) + (if mode
        == SessionMode::Plan {
        part("plan"@)
    } else {
        Seq::empty()
    }) + (match provider {
        Some(route) => part(route),
        None => Seq::empty(),
    }) + (if model.len() > 0 {
        part(model)
    } else {
        Seq::empty()
    }) + (match effort {
        Some(level) => part(level_word(Some(level))),
        None => Seq::empty(),
    }) + (match flash {
        Some(news) => part(news),
        None => Seq::empty(),
    }));
}

} // verus!

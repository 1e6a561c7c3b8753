//! Rendering agent prose as styled lines.
//!
//! The transcript only needs the everyday subset a model actually emits: headings, emphasis,
//! code, lists, quotes. Malformed or plain-text input renders as prose either way.

use vstd::prelude::*;
use pulldown_cmark::Event::{Code, End, HardBreak, Rule, SoftBreak, Start, Text};
use pulldown_cmark::Tag::{
    BlockQuote, CodeBlock, Emphasis, Heading, Item, List, Paragraph, Strikethrough, Strong,
};
use pulldown_cmark::{Options, Parser};
use crate::style::{
    blank_line, bolded, colored, line_of, line_views, push_line, push_span, raw, span_views,
    styled, styled_line, Color, Line, LineView, Span, SpanView, Style,
};
use crate::text;
use crate::text::{decimal_of, repeated, split_on, texts, words_of};

verus! {

/// The color of headings.
pub const HEADING: Color = Color::Magenta;

/// The color of code.
pub const CODE: Color = Color::Yellow;

/// The color of rules.
pub const RULE: Color = Color::DarkGray;

/// An element of a markdown text.
#[derive(Clone, Copy, Debug, PartialEq, Eq, Structural)]
pub enum Element {
    /// A heading, with how many marks it is shown with.
    Heading(usize),
    Paragraph,
    Strong,
    Emphasis,
    Strikethrough,
    CodeBlock,
    Item,
    /// A list, with the number of its first item where it is an ordered one.
    List(Option<u64>),
    Quote,
    /// Anything that the transcript does not show apart.
    Other,
}

/// One step of reading a markdown text.
#[derive(Debug, PartialEq, Eq)]
pub enum MarkdownEvent {
    Start(Element),
    /// The end of the element that started last and has not ended yet.
    End,
    Code(String),
    Text(String),
    SoftBreak,
    HardBreak,
    Rule,
    /// Anything that the transcript does not show.
    Other,
}

/// What a [`MarkdownEvent`] says.
pub enum MarkdownEventView {
    Start(Element),
    End,
    Code(Seq<char>),
    Text(Seq<char>),
    SoftBreak,
    HardBreak,
    Rule,
    Other,
}

impl View for MarkdownEvent {
    type V = MarkdownEventView;

    open spec fn view(&self) -> MarkdownEventView {
        match self {
            MarkdownEvent::Start(element) => MarkdownEventView::Start(*element),
            MarkdownEvent::End => MarkdownEventView::End,
            MarkdownEvent::Code(code) => MarkdownEventView::Code(code@),
            MarkdownEvent::Text(text) => MarkdownEventView::Text(text@),
            MarkdownEvent::SoftBreak => MarkdownEventView::SoftBreak,
            MarkdownEvent::HardBreak => MarkdownEventView::HardBreak,
            MarkdownEvent::Rule => MarkdownEventView::Rule,
            MarkdownEvent::Other => MarkdownEventView::Other,
        }
    }
}

/// What some events say.
pub open spec fn event_views(events: Seq<MarkdownEvent>) -> Seq<MarkdownEventView> {
    events.map_values(|e: MarkdownEvent| e@)
}

// Wrapping.

/// A word with its style.
pub struct WordView {
    pub word: Seq<char>,
    pub style: Style,
}

/// A word with its style.
#[derive(Debug, PartialEq, Eq)]
pub struct Word {
    pub word: String,
    pub style: Style,
}

impl View for Word {
    type V = WordView;

    open spec fn view(&self) -> WordView {
        WordView { word: self.word@, style: self.style }
    }
}

/// What some words say.
pub open spec fn word_views(words: Seq<Word>) -> Seq<WordView> {
    words.map_values(|w: Word| w@)
}

/// Words being laid out: the lines that are full, the line under way, and how much of it is
/// used behind its indent.
pub struct Layout {
    pub lines: Seq<LineView>,
    pub spans: Seq<SpanView>,
    pub used: nat,
}

/// How wide the text behind a prefix may be.
pub open spec fn body_width(width: nat, prefix: Seq<char>) -> nat {
    if width > prefix.len() {
        (width - prefix.len()) as nat
    } else {
        1
    }
}

/// The layout with one more word on it, on a new line where the word does not fit.
pub open spec fn with_word(layout: Layout, word: WordView, body: nat, indent: Seq<char>) -> Layout {
    if word.word.len() == 0 {
        layout
    } else if layout.used > 0 && layout.used + 1 + word.word.len() > body {
        Layout {
            lines: layout.lines.push(line_of(layout.spans)),
            spans: seq![raw(indent), styled(word.word, word.style)],
            used: word.word.len(),
        }
    } else if layout.used > 0 {
        Layout {
            lines: layout.lines,
            spans: layout.spans.push(raw(" "@)).push(styled(word.word, word.style)),
            used: layout.used + 1 + word.word.len(),
        }
    } else {
        Layout {
            lines: layout.lines,
            spans: layout.spans.push(styled(word.word, word.style)),
            used: word.word.len(),
        }
    }
}

/// The layout of some words behind `prefix`.
pub open spec fn laid_out(words: Seq<WordView>, body: nat, prefix: Seq<char>) -> Layout
    decreases words.len(),
{
    if words.len() == 0 {
        Layout { lines: Seq::empty(), spans: seq![raw(prefix)], used: 0 }
    } else {
        with_word(
            laid_out(words.drop_last(), body, prefix),
            words.last(),
            body,
            repeated(' ', prefix.len()),
        )
    }
}

/// The lines of some words behind `prefix`, wrapped to `width`: the first line carries the
/// prefix and the others are indented as far.
pub open spec fn wrapped_words(words: Seq<WordView>, width: nat, prefix: Seq<char>) -> Seq<
    LineView,
> {
    let layout = laid_out(words, body_width(width, prefix), prefix);
    layout.lines.push(line_of(layout.spans))
}

/// Whether a word of `length` does not fit behind `used` columns and a space.
pub fn overflows(used: usize, length: usize, body: usize) -> (r: bool)
    ensures
        r == (used + 1 + length > body),
{
    if length >= body {
        true
    } else {
        used >= body - length
    }
}

/// How wide the text behind a prefix may be.
pub fn body_of(width: usize, prefix: &str) -> (r: usize)
    ensures
        r == body_width(width as nat, prefix@),
{
    let n: usize = prefix.unicode_len();
    if width > n {
        width - n
    } else {
        1
    }
}

/// Greedy word wrap over styled words, the first line behind `prefix` and the others
/// indented as far.
pub fn wrap_words(words: &Vec<Word>, width: usize, prefix: &str) -> (r: Vec<Line>)
    ensures
        line_views(r@) == wrapped_words(word_views(words@), width as nat, prefix@),
{
    let ghost all = word_views(words@);
    let indent = text::repeat(' ', prefix.unicode_len());
    let body: usize = body_of(width, prefix);
    let mut lines: Vec<Line> = Vec::new();
    let mut spans: Vec<Span> = Vec::new();
    push_span(&mut spans, Span::raw(prefix));
    let mut used: usize = 0;
    let mut i: usize = 0;
    proof {
        assert(line_views(lines@) =~= Seq::empty());
        assert(span_views(Seq::<Span>::empty()) =~= Seq::empty());
        assert(span_views(spans@) =~= seq![raw(prefix@)]);
        assert(all.take(0) =~= Seq::empty());
    }
    while i < words.len()
        invariant
            i <= words.len(),
            all == word_views(words@),
            indent@ == repeated(' ', prefix@.len()),
            ({
                let layout = laid_out(all.take(i as int), body as nat, prefix@);
                &&& line_views(lines@) == layout.lines
                &&& span_views(spans@) == layout.spans
                &&& used == layout.used
            }),
        decreases words.len() - i,
    {
        assert(all.take(i as int + 1).drop_last() =~= all.take(i as int));
        assert(all[i as int] == words@[i as int]@);
        let word = words[i].word.as_str();
        let length: usize = word.unicode_len();
        if length > 0 {
            if used > 0 && overflows(used, length, body) {
                push_line(&mut lines, Line::of(spans));
                spans = Vec::new();
                assert(span_views(spans@) =~= Seq::empty());
                push_span(&mut spans, Span::raw(indent.as_str()));
                push_span(&mut spans, Span::styled(word, words[i].style));
                assert(span_views(spans@) =~= seq![
                    raw(indent@),
                    styled(word@, words@[i as int].style),
                ]);
                used = length;
            } else if used > 0 {
                push_span(&mut spans, Span::raw(" "));
                push_span(&mut spans, Span::styled(word, words[i].style));
                used = used + 1 + length;
            } else {
                push_span(&mut spans, Span::styled(word, words[i].style));
                used = length;
            }
        }
        i += 1;
    }
    assert(all.take(i as int) =~= all);
    push_line(&mut lines, Line::of(spans));
    lines
}

/// The pieces of `width` characters that a text falls into; an empty text is one piece.
pub open spec fn chunked(s: Seq<char>, width: nat) -> Seq<Seq<char>>
    decreases s.len(),
{
    if width == 0 || s.len() <= width {
        seq![s]
    } else {
        seq![s.take(width as int)] + chunked(s.skip(width as int), width)
    }
}

/// Plain-text wrap for code: still breaks inside an overlong token, so a long line does not
/// push the pane wide.
pub fn wrap_plain(s: &str, width: usize) -> (r: Vec<String>)
    ensures
        texts(r@) == chunked(
            s@,
            if width == 0 {
                1
            } else {
                width as nat
            },
        ),
{
    let v = text::to_chars(s);
    let step: usize = if width == 0 {
        1
    } else {
        width
    };
    let ghost whole = chunked(v@, step as nat);
    let mut r: Vec<String> = Vec::new();
    let mut i: usize = 0;
    proof {
        assert(v@.skip(0) =~= v@);
        assert(texts(r@) + chunked(v@.skip(0), step as nat) =~= whole);
    }
    while v.len() - i > step
        invariant
            i <= v.len(),
            step > 0,
            texts(r@) + chunked(v@.skip(i as int), step as nat) == whole,
        decreases v.len() - i,
    {
        let ghost done = texts(r@);
        let ghost rest = v@.skip(i as int);
        let piece = text::from_chars(&v, i, i + step);
        r.push(piece);
        proof {
            assert(piece@ =~= rest.take(step as int));
            assert(rest.skip(step as int) =~= v@.skip(i + step));
            assert(texts(r@) =~= done.push(piece@));
            assert(texts(r@) + chunked(v@.skip(i + step), step as nat) =~= done + chunked(
                rest,
                step as nat,
            ));
        }
        i += step;
    }
    let ghost done = texts(r@);
    let piece = text::from_chars(&v, i, v.len());
    assert(piece@ =~= v@.skip(i as int));
    r.push(piece);
    assert(texts(r@) =~= done + seq![piece@]);
    r
}

// Rendering.

/// A text being rendered.
pub struct Rendering {
    /// The lines that are done.
    pub lines: Seq<LineView>,
    /// The words that wait for their line.
    pub words: Seq<WordView>,
    /// The elements under way, the innermost last.
    pub open: Seq<Element>,
    /// The styles under way, the innermost last.
    pub styles: Seq<Style>,
    /// The lists under way, each with the number of its next item where it is ordered.
    pub lists: Seq<Option<u64>>,
    /// What each line starts with.
    pub prefix: Seq<char>,
    pub in_code_block: bool,
    pub code_block: Seq<char>,
}

impl Rendering {
    /// The style that text is in.
    pub open spec fn style(self, base: Style) -> Style {
        if self.styles.len() > 0 {
            self.styles.last()
        } else {
            base
        }
    }

    /// With the waiting words laid out.
    pub open spec fn flushed(self, width: nat) -> Rendering {
        if self.words.len() == 0 {
            self
        } else {
            Rendering {
                lines: self.lines + wrapped_words(self.words, width, self.prefix),
                words: Seq::empty(),
                ..self
            }
        }
    }

    /// With one more line.
    pub open spec fn line(self, line: LineView) -> Rendering {
        Rendering { lines: self.lines.push(line), ..self }
    }

    /// With one more word waiting.
    pub open spec fn word(self, word: Seq<char>, style: Style) -> Rendering {
        Rendering { words: self.words.push(WordView { word, style }), ..self }
    }

    /// With every word of a text waiting.
    pub open spec fn all_words(self, words: Seq<Seq<char>>, style: Style) -> Rendering {
        Rendering {
            words: self.words + words.map_values(|w: Seq<char>| WordView { word: w, style }),
            ..self
        }
    }

    /// In one more style.
    pub open spec fn pushed(self, style: Style) -> Rendering {
        Rendering { styles: self.styles.push(style), ..self }
    }

    /// Out of the innermost style.
    pub open spec fn popped(self) -> Rendering {
        Rendering {
            styles: if self.styles.len() > 0 {
                self.styles.drop_last()
            } else {
                self.styles
            },
            ..self
        }
    }

    /// With the last `n` characters of the prefix gone.
    pub open spec fn outdented(self, n: nat) -> Rendering {
        Rendering {
            prefix: if self.prefix.len() > n {
                self.prefix.take(self.prefix.len() - n)
            } else {
                Seq::empty()
            },
            ..self
        }
    }

    /// Whether the innermost list is an ordered one.
    pub open spec fn ordered(self) -> bool {
        self.lists.len() > 0 && self.lists.last() is Some
    }

    /// The marker of the next item.
    pub open spec fn marker(self) -> Seq<char> {
        if self.ordered() {
            decimal_of(self.lists.last()->0 as nat) + ". "@
        } else {
            "- "@
        }
    }

    /// With the next item counted.
    pub open spec fn counted(self) -> Rendering {
        if self.ordered() {
            let n = self.lists.last()->0;
            Rendering {
                lists: self.lists.drop_last().push(
                    Some(
                        if n < u64::MAX {
                            (n + 1) as u64
                        } else {
                            n
                        },
                    ),
                ),
                ..self
            }
        } else {
            self
        }
    }

    /// At the start of an element.
    pub open spec fn start(self, element: Element, width: nat, base: Style) -> Rendering {
        let style = self.style(base);
        match element {
            Element::Heading(rank) => {
                let heading = bolded(colored(HEADING));
                self.flushed(width).pushed(heading).word(repeated('#', rank as nat), heading)
            },
            Element::Strong => self.pushed(bolded(style)),
            Element::Emphasis => self.pushed(Style { italic: true, ..style }),
            Element::Strikethrough => self.pushed(Style { crossed_out: true, ..style }),
            Element::CodeBlock => Rendering {
                in_code_block: true,
                code_block: Seq::empty(),
                ..self.flushed(width)
            },
            Element::Item => {
                let flushed = self.flushed(width);
                let marker = flushed.marker();
                Rendering {
                    prefix: flushed.prefix + repeated(' ', marker.len()),
                    ..flushed.counted()
                }.word(marker, style)
            },
            Element::List(start) => Rendering { lists: self.lists.push(start), ..self },
            Element::Quote => Rendering { prefix: self.prefix + "> "@, ..self },
            Element::Paragraph => self,
            Element::Other => self,
        }
    }

    /// At the end of an element.
    pub open spec fn end(self, element: Element, width: nat) -> Rendering {
        match element {
            Element::Heading(_) => self.flushed(width).popped().line(blank_line()),
            Element::Paragraph => self.flushed(width).line(blank_line()),
            Element::Strong => self.popped(),
            Element::Emphasis => self.popped(),
            Element::Strikethrough => self.popped(),
            Element::CodeBlock => Rendering {
                in_code_block: false,
                lines: self.lines + code_lines(self.code_block, width, self.prefix),
                ..self
            }.line(blank_line()),
            Element::Item => self.flushed(width).outdented(
                if self.ordered() {
                    3
                } else {
                    2
                },
            ),
            Element::List(_) => Rendering {
                lists: if self.lists.len() > 0 {
                    self.lists.drop_last()
                } else {
                    self.lists
                },
                ..self
            }.line(blank_line()),
            Element::Quote => self.outdented(2),
            Element::Other => self,
        }
    }

    /// One step on.
    pub open spec fn step(self, event: MarkdownEventView, width: nat, base: Style) -> Rendering {
        let style = self.style(base);
        match event {
            MarkdownEventView::Start(element) => Rendering {
                open: self.open.push(element),
                ..self
            }.start(element, width, base),
            MarkdownEventView::End => if self.open.len() > 0 {
                Rendering { open: self.open.drop_last(), ..self }.end(self.open.last(), width)
            } else {
                self
            },
            MarkdownEventView::Code(code) => if self.in_code_block {
                Rendering { code_block: self.code_block + code, ..self }
            } else {
                self.all_words(words_of(code), colored(CODE))
            },
            MarkdownEventView::Text(text) => if self.in_code_block {
                Rendering { code_block: self.code_block + text, ..self }
            } else {
                self.all_words(words_of(text), style)
            },
            MarkdownEventView::SoftBreak => self.word(Seq::empty(), style),
            MarkdownEventView::HardBreak => self.flushed(width),
            MarkdownEventView::Rule => self.flushed(width).line(
                styled_line(
                    repeated(
                        '─',
                        if width > 0 {
                            width
                        } else {
                            1
                        },
                    ),
                    colored(RULE),
                ),
            ).line(blank_line()),
            MarkdownEventView::Other => self,
        }
    }
}

/// One line of a code block, wrapped.
pub open spec fn code_line(raw_line: Seq<char>, body: nat, indent: Seq<char>) -> Seq<LineView> {
    chunked(raw_line, body).map_values(|c: Seq<char>| styled_line(indent + c, colored(CODE)))
}

/// Some lines of a code block, wrapped.
pub open spec fn code_lines_of(raw_lines: Seq<Seq<char>>, body: nat, indent: Seq<char>) -> Seq<
    LineView,
>
    decreases raw_lines.len(),
{
    if raw_lines.len() == 0 {
        Seq::empty()
    } else {
        code_lines_of(raw_lines.drop_last(), body, indent) + code_line(
            raw_lines.last(),
            body,
            indent,
        )
    }
}

/// The lines of a code block: two columns further in than the text around it, without the
/// line feeds at its end.
pub open spec fn code_lines(code: Seq<char>, width: nat, prefix: Seq<char>) -> Seq<LineView> {
    let indent = prefix + "  "@;
    code_lines_of(
        split_on(crate::support::feeds_trimmed(code), '\n'),
        body_width(width, indent),
        indent,
    )
}

/// A text about to be rendered.
pub open spec fn started(base: Style, lead: Seq<char>) -> Rendering {
    Rendering {
        lines: Seq::empty(),
        words: Seq::empty(),
        open: Seq::empty(),
        styles: seq![base],
        lists: Seq::empty(),
        prefix: lead,
        in_code_block: false,
        code_block: Seq::empty(),
    }
}

/// A text rendered as far as these events.
pub open spec fn rendering(
    events: Seq<MarkdownEventView>,
    width: nat,
    base: Style,
    lead: Seq<char>,
) -> Rendering
    decreases events.len(),
{
    if events.len() == 0 {
        started(base, lead)
    } else {
        rendering(events.drop_last(), width, base, lead).step(events.last(), width, base)
    }
}

/// The lines without those at the end that hold nothing.
pub open spec fn without_blank_end(lines: Seq<LineView>) -> Seq<LineView>
    decreases lines.len(),
{
    if lines.len() > 0 && lines.last().spans.len() == 0 {
        without_blank_end(lines.drop_last())
    } else {
        lines
    }
}

/// The lines that some events are rendered as; never none.
pub open spec fn rendered(
    events: Seq<MarkdownEventView>,
    width: nat,
    base: Style,
    lead: Seq<char>,
) -> Seq<LineView> {
    let lines = without_blank_end(rendering(events, width, base, lead).flushed(width).lines);
    if lines.len() == 0 {
        seq![blank_line()]
    } else {
        lines
    }
}

/// A text being rendered.
struct Renderer {
    lines: Vec<Line>,
    words: Vec<Word>,
    open: Vec<Element>,
    styles: Vec<Style>,
    lists: Vec<Option<u64>>,
    prefix: String,
    in_code_block: bool,
    code_block: String,
}

impl View for Renderer {
    type V = Rendering;

    closed spec fn view(&self) -> Rendering {
        Rendering {
            lines: line_views(self.lines@),
            words: word_views(self.words@),
            open: self.open@,
            styles: self.styles@,
            lists: self.lists@,
            prefix: self.prefix@,
            in_code_block: self.in_code_block,
            code_block: self.code_block@,
        }
    }
}

impl Renderer {
    fn style(&self, base: Style) -> (r: Style)
        ensures
            r == self@.style(base),
    {
        if self.styles.len() > 0 {
            self.styles[self.styles.len() - 1]
        } else {
            base
        }
    }

    fn flush(&mut self, width: usize)
        ensures
            final(self)@ == old(self)@.flushed(width as nat),
    {
        if self.words.len() > 0 {
            let lines = wrap_words(&self.words, width, self.prefix.as_str());
            crate::style::append_lines(&mut self.lines, lines);
            self.words = Vec::new();
            assert(word_views(self.words@) =~= Seq::empty());
        }
    }

    fn line(&mut self, line: Line)
        ensures
            final(self)@ == old(self)@.line(line@),
    {
        push_line(&mut self.lines, line);
    }

    fn word(&mut self, word: String, style: Style)
        ensures
            final(self)@ == old(self)@.word(word@, style),
    {
        self.words.push(Word { word, style });
        assert(word_views(self.words@) =~= word_views(old(self).words@).push(
            WordView { word: word@, style },
        ));
    }

    fn all_words(&mut self, s: &str, style: Style)
        ensures
            final(self)@ == old(self)@.all_words(words_of(s@), style),
    {
        let words = text::split_white_space(s);
        let ghost view = self@;
        let ghost all = words_of(s@);
        let ghost more = all.map_values(|w: Seq<char>| WordView { word: w, style });
        let mut i: usize = 0;
        assert(view.words + more.take(0) =~= view.words);
        while i < words.len()
            invariant
                i <= words.len(),
                texts(words@) == all,
                more == all.map_values(|w: Seq<char>| WordView { word: w, style }),
                self@ == (Rendering { words: view.words + more.take(i as int), ..view }),
            decreases words.len() - i,
        {
            assert(all[i as int] == words@[i as int]@);
            self.word(words[i].clone(), style);
            assert(view.words + more.take(i as int + 1) =~= (view.words + more.take(
                i as int,
            )).push(more[i as int]));
            i += 1;
        }
        assert(more.take(i as int) =~= more);
    }

    fn pop(&mut self)
        ensures
            final(self)@ == old(self)@.popped(),
    {
        self.styles.pop();
        assert(old(self).styles.len() == 0 ==> self.styles@ =~= old(self).styles@);
    }

    fn outdent(&mut self, n: usize)
        ensures
            final(self)@ == old(self)@.outdented(n as nat),
    {
        let v = text::to_chars(self.prefix.as_str());
        if v.len() > n {
            self.prefix = text::from_chars(&v, 0, v.len() - n);
            assert(v@.subrange(0, v.len() - n) =~= v@.take(v.len() - n));
        } else {
            self.prefix = String::new();
            assert(self.prefix@ =~= Seq::<char>::empty());
        }
    }

    fn start_item(&mut self, width: usize, style: Style)
        ensures
            ({
                let flushed = old(self)@.flushed(width as nat);
                let marker = flushed.marker();
                final(self)@ == (Rendering {
                    prefix: flushed.prefix + repeated(' ', marker.len()),
                    ..flushed.counted()
                }).word(marker, style)
            }),
    {
        self.flush(width);
        let ghost flushed = self@;
        let mut number: Option<u64> = None;
        if self.lists.len() > 0 {
            number = self.lists[self.lists.len() - 1];
        }
        let marker = match number {
            Some(n) => {
                let next: u64 = if n < u64::MAX {
                    n + 1
                } else {
                    n
                };
                let last: usize = self.lists.len() - 1;
                self.lists.set(last, Some(next));
                assert(self.lists@ =~= flushed.counted().lists);
                let digits = text::decimal(n);
                text::concat(digits.as_str(), ". ")
            },
            None => text::copy("- "),
        };
        let pad = text::repeat(' ', marker.as_str().unicode_len());
        self.prefix.append(pad.as_str());
        self.word(marker, style);
    }

    fn end_code_block(&mut self, width: usize)
        ensures
            final(self)@ == (Rendering {
                in_code_block: false,
                lines: old(self)@.lines + code_lines(
                    old(self)@.code_block,
                    width as nat,
                    old(self)@.prefix,
                ),
                ..old(self)@
            }).line(blank_line()),
    {
        let ghost view = self@;
        self.in_code_block = false;
        let indent = text::concat(self.prefix.as_str(), "  ");
        let body: usize = body_of(width, indent.as_str());
        let code = crate::support::trim_feeds(self.code_block.as_str());
        let raw_lines = text::split(code.as_str(), '\n');
        let ghost all = texts(raw_lines@);
        let mut i: usize = 0;
        assert(view.lines + code_lines_of(all.take(0), body as nat, indent@) =~= view.lines);
        while i < raw_lines.len()
            invariant
                i <= raw_lines.len(),
                all == texts(raw_lines@),
                body > 0,
                self@ == (Rendering {
                    in_code_block: false,
                    lines: view.lines + code_lines_of(all.take(i as int), body as nat, indent@),
                    ..view
                }),
            decreases raw_lines.len() - i,
        {
            let ghost before = self@.lines;
            assert(all.take(i as int + 1).drop_last() =~= all.take(i as int));
            assert(all[i as int] == raw_lines@[i as int]@);
            let chunks = wrap_plain(raw_lines[i].as_str(), body);
            let ghost pieces = chunked(all[i as int], body as nat);
            let ghost more = code_line(all[i as int], body as nat, indent@);
            let mut k: usize = 0;
            assert(before + more.take(0) =~= before);
            while k < chunks.len()
                invariant
                    k <= chunks.len(),
                    texts(chunks@) == pieces,
                    more == pieces.map_values(
                        |c: Seq<char>| styled_line(indent@ + c, colored(CODE)),
                    ),
                    self@ == (Rendering {
                        in_code_block: false,
                        lines: before + more.take(k as int),
                        ..view
                    }),
                decreases chunks.len() - k,
            {
                assert(pieces[k as int] == chunks@[k as int]@);
                let line = text::concat(indent.as_str(), chunks[k].as_str());
                self.line(Line::styled(line.as_str(), Style::new().fg(CODE)));
                assert(before + more.take(k as int + 1) =~= (before + more.take(k as int)).push(
                    more[k as int],
                ));
                k += 1;
            }
            assert(more.take(k as int) =~= more);
            assert(before + more =~= view.lines + code_lines_of(
                all.take(i as int + 1),
                body as nat,
                indent@,
            ));
            i += 1;
        }
        assert(all.take(i as int) =~= all);
        self.line(Line::blank());
    }

    fn start(&mut self, element: Element, width: usize, base: Style)
        ensures
            final(self)@ == old(self)@.start(element, width as nat, base),
    {
        let style = self.style(base);
        match element {
            Element::Heading(rank) => {
                self.flush(width);
                let heading = Style::new().fg(HEADING).bold();
                self.styles.push(heading);
                let marks = text::repeat('#', rank);
                self.word(marks, heading);
            },
            Element::Strong => {
                self.styles.push(style.bold());
            },
            Element::Emphasis => {
                self.styles.push(style.italic());
            },
            Element::Strikethrough => {
                self.styles.push(style.crossed_out());
            },
            Element::CodeBlock => {
                self.flush(width);
                self.in_code_block = true;
                self.code_block = String::new();
                assert(self.code_block@ =~= Seq::<char>::empty());
            },
            Element::Item => {
                self.start_item(width, style);
            },
            Element::List(start) => {
                self.lists.push(start);
            },
            Element::Quote => {
                self.prefix.append("> ");
            },
            Element::Paragraph => {},
            Element::Other => {},
        }
    }

    fn end(&mut self, element: Element, width: usize)
        ensures
            final(self)@ == old(self)@.end(element, width as nat),
    {
        match element {
            Element::Heading(_) => {
                self.flush(width);
                self.pop();
                self.line(Line::blank());
            },
            Element::Paragraph => {
                self.flush(width);
                self.line(Line::blank());
            },
            Element::Strong => {
                self.pop();
            },
            Element::Emphasis => {
                self.pop();
            },
            Element::Strikethrough => {
                self.pop();
            },
            Element::CodeBlock => {
                self.end_code_block(width);
            },
            Element::Item => {
                self.flush(width);
                let mut drop: usize = 2;
                if self.lists.len() > 0 {
                    if self.lists[self.lists.len() - 1].is_some() {
                        drop = 3;
                    }
                }
                self.outdent(drop);
            },
            Element::List(_) => {
                self.lists.pop();
                assert(old(self).lists.len() == 0 ==> self.lists@ =~= old(self).lists@);
                self.line(Line::blank());
            },
            Element::Quote => {
                self.outdent(2);
            },
            Element::Other => {},
        }
    }

    fn step(&mut self, event: &MarkdownEvent, width: usize, base: Style)
        ensures
            final(self)@ == old(self)@.step(event@, width as nat, base),
    {
        let style = self.style(base);
        match event {
            MarkdownEvent::Start(element) => {
                self.open.push(*element);
                self.start(*element, width, base);
            },
            MarkdownEvent::End => {
                if let Some(element) = self.open.pop() {
                    self.end(element, width);
                } else {
                    assert(self.open@ =~= old(self).open@);
                }
            },
            MarkdownEvent::Code(code) => {
                if self.in_code_block {
                    self.code_block.append(code.as_str());
                } else {
                    self.all_words(code.as_str(), Style::new().fg(CODE));
                }
            },
            MarkdownEvent::Text(text) => {
                if self.in_code_block {
                    self.code_block.append(text.as_str());
                } else {
                    self.all_words(text.as_str(), style);
                }
            },
            MarkdownEvent::SoftBreak => {
                let none = String::new();
                assert(none@ =~= Seq::<char>::empty());
                self.word(none, style);
            },
            MarkdownEvent::HardBreak => {
                self.flush(width);
            },
            MarkdownEvent::Rule => {
                self.flush(width);
                let length: usize = if width > 0 {
                    width
                } else {
                    1
                };
                let rule = text::repeat('─', length);
                self.line(Line::styled(rule.as_str(), Style::new().fg(RULE)));
                self.line(Line::blank());
            },
            MarkdownEvent::Other => {},
        }
    }
}

/// Renders what a markdown text was read as, wrapped to `width`.
pub fn render_events(events: &Vec<MarkdownEvent>, width: usize, base: Style, lead: &str) -> (r: Vec<
    Line,
>)
    ensures
        line_views(r@) == rendered(event_views(events@), width as nat, base, lead@),
{
    let ghost all = event_views(events@);
    let mut styles: Vec<Style> = Vec::new();
    styles.push(base);
    let mut renderer = Renderer {
        lines: Vec::new(),
        words: Vec::new(),
        open: Vec::new(),
        styles,
        lists: Vec::new(),
        prefix: text::copy(lead),
        in_code_block: false,
        code_block: String::new(),
    };
    proof {
        assert(line_views(renderer.lines@) =~= Seq::empty());
        assert(word_views(renderer.words@) =~= Seq::empty());
        assert(renderer.styles@ =~= seq![base]);
        assert(renderer.code_block@ =~= Seq::<char>::empty());
        assert(all.take(0) =~= Seq::empty());
    }
    let mut i: usize = 0;
    while i < events.len()
        invariant
            i <= events.len(),
            all == event_views(events@),
            renderer@ == rendering(all.take(i as int), width as nat, base, lead@),
        decreases events.len() - i,
    {
        assert(all.take(i as int + 1).drop_last() =~= all.take(i as int));
        assert(all[i as int] == events@[i as int]@);
        renderer.step(&events[i], width, base);
        i += 1;
    }
    assert(all.take(i as int) =~= all);
    renderer.flush(width);
    let mut lines = renderer.lines;
    let ghost whole = line_views(lines@);
    while lines.len() > 0 && lines[lines.len() - 1].spans.len() == 0
        invariant
            without_blank_end(whole) == without_blank_end(line_views(lines@)),
        decreases lines.len(),
    {
        let ghost before = line_views(lines@);
        assert(before.last() == lines@[lines.len() - 1]@);
        lines.pop();
        assert(line_views(lines@) =~= before.drop_last());
    }
    assert(lines.len() > 0 ==> line_views(lines@).last() == lines@[lines.len() - 1]@);
    if lines.len() == 0 {
        push_line(&mut lines, Line::blank());
        assert(line_views(lines@) =~= seq![blank_line()]);
    }
    lines
}

// Reading markdown.

/// What `pulldown_cmark` reads a text as, with strikethrough and task lists enabled.
pub uninterp spec fn read_as(text: Seq<char>) -> Seq<MarkdownEventView>;

/// `pulldown_cmark::Parser::new_ext`, with its events one for one. What a text is read as is
/// the crate's grammar, a function of the text alone; a heading's level is its number of
/// marks. An end is that of the element that started last, since starts and ends are
/// balanced.
#[verifier::external_body]
fn read_markdown(text: &str) -> (r: Vec<MarkdownEvent>)
    ensures
        event_views(r@) == read_as(text@),
{
    let options = Options::ENABLE_STRIKETHROUGH | Options::ENABLE_TASKLISTS;
    Parser::new_ext(text, options).map(|event| match event {
        Start(tag) => MarkdownEvent::Start(match tag {
            Heading { level, .. } => Element::Heading(level as usize),
            Paragraph => Element::Paragraph, Strong => Element::Strong, Emphasis => Element::Emphasis,
            Strikethrough => Element::Strikethrough, CodeBlock(_) => Element::CodeBlock, Item => Element::Item,
            List(start) => Element::List(start), BlockQuote(_) => Element::Quote, _ => Element::Other }),
        End(_) => MarkdownEvent::End,
        Code(code) => MarkdownEvent::Code(code.to_string()),
        Text(text) => MarkdownEvent::Text(text.to_string()),
        SoftBreak => MarkdownEvent::SoftBreak, HardBreak => MarkdownEvent::HardBreak,
        Rule => MarkdownEvent::Rule, _ => MarkdownEvent::Other }).collect()
}

/// Renders `text` as markdown, wrapped to `width`.
///
/// `base` is the style prose inherits; `lead` is the indent already claimed by the caller's
/// header.
pub fn render(text: &str, width: usize, base: Style, lead: &str) -> (r: Vec<Line>)
    ensures
        line_views(r@) == rendered(read_as(text@), width as nat, base, lead@),
{
    let events = read_markdown(text);
    render_events(&events, width, base, lead)
}

// Laws.

/// A rendered text is never nothing: it has at least one line.
pub proof fn a_rendered_text_has_a_line(
    events: Seq<MarkdownEventView>,
    width: nat,
    base: Style,
    lead: Seq<char>,
)
    ensures
        rendered(events, width, base, lead).len() > 0,
{
}

/// The pieces of a wrapped text are the text, none longer than the width.
pub proof fn chunks_are_the_text(s: Seq<char>, width: nat)
    requires
        width > 0,
    ensures
        chunked(s, width).flatten() == s,
        forall|i: int| 0 <= i < chunked(s, width).len() ==> #[trigger] chunked(s, width)[i].len() <= width,
    decreases s.len(),
{
    if s.len() <= width {
        seq![s].lemma_flatten_one_element();
    } else {
        let head = seq![s.take(width as int)];
        let rest = chunked(s.skip(width as int), width);
        chunks_are_the_text(s.skip(width as int), width);
        assert((head + rest).drop_first() =~= rest);
        assert(s.take(width as int) + s.skip(width as int) =~= s);
    }
}

/// A text in a style, as far as it can be seen.
pub open spec fn inked(s: Seq<char>, style: Style) -> Seq<(char, Style)> {
    text::seen(s).map_values(|c: char| (c, style))
}

/// What can be seen of some spans.
pub open spec fn spans_ink(spans: Seq<SpanView>) -> Seq<(char, Style)> {
    spans.map_values(|span: SpanView| inked(span.content, span.style)).flatten()
}

/// What can be seen of some lines of prose, behind what each starts with.
pub open spec fn lines_ink(lines: Seq<LineView>) -> Seq<(char, Style)> {
    lines.map_values(
        |line: LineView|
            spans_ink(
                if line.spans.len() > 0 {
                    line.spans.drop_first()
                } else {
                    line.spans
                },
            ),
    ).flatten()
}

/// What can be seen of some words.
pub open spec fn words_ink(words: Seq<WordView>) -> Seq<(char, Style)> {
    words.map_values(|word: WordView| inked(word.word, word.style)).flatten()
}

impl Rendering {
    /// What can be seen of the prose so far.
    pub open spec fn ink(self) -> Seq<(char, Style)> {
        lines_ink(self.lines) + words_ink(self.words)
    }
}

proof fn lemma_spans_ink_push(spans: Seq<SpanView>, span: SpanView)
    ensures
        spans_ink(spans.push(span)) == spans_ink(spans) + inked(span.content, span.style),
        spans_ink(Seq::empty()) == Seq::<(char, Style)>::empty(),
{
    let f = |span: SpanView| inked(span.content, span.style);
    assert(spans.push(span).map_values(f) =~= spans.map_values(f).push(f(span)));
    spans.map_values(f).lemma_flatten_push(f(span));
    assert(Seq::<SpanView>::empty().map_values(f) =~= Seq::empty());
}

/// What can be seen of a line behind what it starts with.
pub open spec fn line_ink(line: LineView) -> Seq<(char, Style)> {
    spans_ink(
        if line.spans.len() > 0 {
            line.spans.drop_first()
        } else {
            line.spans
        },
    )
}

proof fn lemma_lines_ink_push(lines: Seq<LineView>, line: LineView)
    ensures
        lines_ink(lines.push(line)) == lines_ink(lines) + line_ink(line),
        lines_ink(Seq::empty()) == Seq::<(char, Style)>::empty(),
{
    let f = |line: LineView|
        spans_ink(
            if line.spans.len() > 0 {
                line.spans.drop_first()
            } else {
                line.spans
            },
        );
    assert(lines.push(line).map_values(f) =~= lines.map_values(f).push(f(line)));
    lines.map_values(f).lemma_flatten_push(f(line));
    assert(Seq::<LineView>::empty().map_values(f) =~= Seq::empty());
}

proof fn lemma_words_ink_push(words: Seq<WordView>, word: WordView)
    ensures
        words_ink(words.push(word)) == words_ink(words) + inked(word.word, word.style),
        words_ink(Seq::empty()) == Seq::<(char, Style)>::empty(),
{
    let f = |word: WordView| inked(word.word, word.style);
    assert(words.push(word).map_values(f) =~= words.map_values(f).push(f(word)));
    words.map_values(f).lemma_flatten_push(f(word));
    assert(Seq::<WordView>::empty().map_values(f) =~= Seq::empty());
}

proof fn lemma_lines_ink_add(a: Seq<LineView>, b: Seq<LineView>)
    ensures
        lines_ink(a + b) == lines_ink(a) + lines_ink(b),
    decreases b.len(),
{
    if b.len() == 0 {
        lemma_lines_ink_push(a, blank_line());
        assert(b =~= Seq::<LineView>::empty());
        assert(a + b =~= a);
        assert(lines_ink(a) + lines_ink(b) =~= lines_ink(a));
    } else {
        let init = b.drop_last();
        lemma_lines_ink_add(a, init);
        lemma_lines_ink_push(a + init, b.last());
        lemma_lines_ink_push(init, b.last());
        assert((a + init).push(b.last()) =~= a + b);
        assert(init.push(b.last()) =~= b);
        assert(lines_ink(a + b) =~= lines_ink(a) + lines_ink(b));
    }
}

/// Lines with one run or none hold no prose.
proof fn lemma_no_prose(lines: Seq<LineView>)
    requires
        forall|i: int| 0 <= i < lines.len() ==> (#[trigger] lines[i]).spans.len() <= 1,
    ensures
        lines_ink(lines) == Seq::<(char, Style)>::empty(),
    decreases lines.len(),
{
    if lines.len() == 0 {
        lemma_lines_ink_push(lines, blank_line());
        assert(lines =~= Seq::<LineView>::empty());
    } else {
        let init = lines.drop_last();
        assert forall|i: int| 0 <= i < init.len() implies (#[trigger] init[i]).spans.len()
            <= 1 by {
            assert(init[i] == lines[i]);
        }
        lemma_no_prose(init);
        let line = lines[lines.len() - 1];
        lemma_lines_ink_push(init, line);
        assert(init.push(line) =~= lines);
        lemma_spans_ink_push(Seq::empty(), raw(" "@));
        if line.spans.len() > 0 {
            assert(line.spans.drop_first() =~= Seq::<SpanView>::empty());
        } else {
            assert(line.spans =~= Seq::<SpanView>::empty());
        }
        assert(lines_ink(lines) =~= Seq::<(char, Style)>::empty());
    }
}

proof fn lemma_inked_space(style: Style)
    ensures
        inked(" "@, style) == Seq::<(char, Style)>::empty(),
        inked(Seq::empty(), style) == Seq::<(char, Style)>::empty(),
{
    reveal_strlit(" ");
    text::lemma_seen_nothing();
    text::lemma_seen_push(Seq::empty(), ' ');
    assert(" "@ =~= Seq::<char>::empty().push(' '));
    assert(inked(" "@, style) =~= Seq::<(char, Style)>::empty());
    assert(inked(Seq::empty(), style) =~= Seq::<(char, Style)>::empty());
}

/// Laying words out keeps them.
proof fn lemma_laid_out_ink(words: Seq<WordView>, body: nat, prefix: Seq<char>)
    ensures
        laid_out(words, body, prefix).spans.len() > 0,
        lines_ink(laid_out(words, body, prefix).lines) + spans_ink(
            laid_out(words, body, prefix).spans.drop_first(),
        ) == words_ink(words),
    decreases words.len(),
{
    let layout = laid_out(words, body, prefix);
    if words.len() == 0 {
        lemma_lines_ink_push(Seq::empty(), blank_line());
        lemma_spans_ink_push(Seq::empty(), raw(prefix));
        lemma_words_ink_push(Seq::empty(), WordView { word: prefix, style: raw(prefix).style });
        assert(layout.spans.drop_first() =~= Seq::<SpanView>::empty());
        assert(words =~= Seq::<WordView>::empty());
        assert(lines_ink(layout.lines) + spans_ink(layout.spans.drop_first()) =~= words_ink(words));
    } else {
        let init = words.drop_last();
        let word = words.last();
        lemma_laid_out_ink(init, body, prefix);
        let before = laid_out(init, body, prefix);
        lemma_words_ink_push(init, word);
        assert(init.push(word) =~= words);
        let own = styled(word.word, word.style);
        lemma_inked_space(raw(" "@).style);
        lemma_inked_space(word.style);
        if word.word.len() == 0 {
            assert(word.word =~= Seq::<char>::empty());
            assert(words_ink(words) =~= words_ink(init));
        } else if before.used > 0 && before.used + 1 + word.word.len() > body {
            let indent = raw(repeated(' ', prefix.len()));
            lemma_lines_ink_push(before.lines, line_of(before.spans));
            lemma_spans_ink_push(Seq::empty(), own);
            assert(layout.spans.drop_first() =~= Seq::<SpanView>::empty().push(own));
            assert(lines_ink(layout.lines) + spans_ink(layout.spans.drop_first())
                =~= words_ink(words));
        } else if before.used > 0 {
            let rest = before.spans.drop_first();
            lemma_spans_ink_push(rest, raw(" "@));
            lemma_spans_ink_push(rest.push(raw(" "@)), own);
            assert(layout.spans.drop_first() =~= rest.push(raw(" "@)).push(own));
            assert(lines_ink(layout.lines) + spans_ink(layout.spans.drop_first())
                =~= words_ink(words));
        } else {
            let rest = before.spans.drop_first();
            lemma_spans_ink_push(rest, own);
            assert(layout.spans.drop_first() =~= rest.push(own));
            assert(lines_ink(layout.lines) + spans_ink(layout.spans.drop_first())
                =~= words_ink(words));
        }
    }
}

/// Wrapping keeps every word, in its style and in order.
pub proof fn wrapping_keeps_every_word(words: Seq<WordView>, width: nat, prefix: Seq<char>)
    ensures
        lines_ink(wrapped_words(words, width, prefix)) == words_ink(words),
{
    let layout = laid_out(words, body_width(width, prefix), prefix);
    lemma_laid_out_ink(words, body_width(width, prefix), prefix);
    lemma_lines_ink_push(layout.lines, line_of(layout.spans));
}

/// Laying the waiting words out changes nothing that can be seen.
proof fn lemma_flushed_ink(r: Rendering, width: nat)
    ensures
        r.flushed(width).ink() == r.ink(),
        r.flushed(width).words.len() == 0,
{
    lemma_words_ink_push(Seq::empty(), WordView { word: r.prefix, style: raw(r.prefix).style });
    if r.words.len() > 0 {
        wrapping_keeps_every_word(r.words, width, r.prefix);
        lemma_lines_ink_add(r.lines, wrapped_words(r.words, width, r.prefix));
        assert(r.flushed(width).ink() =~= r.ink());
    }
}

/// One more line that holds no prose changes nothing that can be seen of it.
proof fn lemma_line_ink(r: Rendering, line: LineView)
    requires
        line.spans.len() <= 1,
    ensures
        r.line(line).ink() == r.ink(),
{
    lemma_lines_ink_push(r.lines, line);
    lemma_no_prose(seq![line]);
    lemma_lines_ink_push(Seq::empty(), line);
    assert(Seq::<LineView>::empty().push(line) =~= seq![line]);
    assert(lines_ink(seq![line]) =~= line_ink(line));
    assert(r.line(line).ink() =~= r.ink());
}

proof fn lemma_word_ink(r: Rendering, word: Seq<char>, style: Style)
    ensures
        r.word(word, style).ink() == r.ink() + inked(word, style),
{
    lemma_words_ink_push(r.words, WordView { word, style });
    assert(r.word(word, style).ink() =~= r.ink() + inked(word, style));
}

proof fn lemma_all_words_ink(r: Rendering, words: Seq<Seq<char>>, style: Style)
    ensures
        r.all_words(words, style).ink() == r.ink() + inked(words.flatten(), style),
    decreases words.len(),
{
    let f = |w: Seq<char>| WordView { word: w, style };
    lemma_inked_space(style);
    if words.len() == 0 {
        assert(words.map_values(f) =~= Seq::empty());
        assert(r.all_words(words, style).words =~= r.words);
        assert(words.flatten() =~= Seq::<char>::empty());
        assert(r.all_words(words, style).ink() =~= r.ink() + inked(words.flatten(), style));
    } else {
        let init = words.drop_last();
        lemma_all_words_ink(r, init, style);
        let before = r.all_words(init, style);
        lemma_word_ink(before, words.last(), style);
        assert(words.map_values(f) =~= init.map_values(f).push(f(words.last())));
        assert(r.all_words(words, style).words =~= before.word(words.last(), style).words);
        init.lemma_flatten_push(words.last());
        assert(init.push(words.last()) =~= words);
        lemma_inked_add(init.flatten(), words.last(), style);
        assert(r.all_words(words, style).ink() =~= r.ink() + inked(words.flatten(), style));
    }
}

proof fn lemma_inked_add(a: Seq<char>, b: Seq<char>, style: Style)
    ensures
        inked(a + b, style) == inked(a, style) + inked(b, style),
{
    text::lemma_seen_add(a, b);
    assert(inked(a + b, style) =~= inked(a, style) + inked(b, style));
}

/// What is seen of what is seen.
proof fn lemma_seen_words(s: Seq<char>, style: Style)
    ensures
        inked(words_of(s).flatten(), style) == inked(s, style),
{
    text::words_are_all_that_is_seen(s);
    text::lemma_seen_again(s);
}

/// No text is lost, whatever comes next: the words of a text and of inline code stand behind what
/// could be seen so far, code in the color of code and text in the style under way; in a code
/// block they wait in the block, letter for letter; the mark of a heading and the marker of an item
/// come with their start; and nothing else changes what can be seen.
pub proof fn a_step_loses_no_text(
    r: Rendering,
    event: MarkdownEventView,
    width: nat,
    base: Style,
)
    ensures
        match event {
            MarkdownEventView::Text(text) => if r.in_code_block {
                &&& r.step(event, width, base).ink() == r.ink()
                &&& r.step(event, width, base).code_block == r.code_block + text
            } else {
                &&& r.step(event, width, base).ink() == r.ink() + inked(text, r.style(base))
                &&& r.step(event, width, base).code_block == r.code_block
            },
            MarkdownEventView::Code(code) => if r.in_code_block {
                &&& r.step(event, width, base).ink() == r.ink()
                &&& r.step(event, width, base).code_block == r.code_block + code
            } else {
                &&& r.step(event, width, base).ink() == r.ink() + inked(
                    code,
                    colored(Color::Yellow),
                )
                &&& r.step(event, width, base).code_block == r.code_block
            },
            MarkdownEventView::Start(Element::Heading(rank)) => r.step(event, width, base).ink()
                == r.ink() + inked(
                Seq::new(rank as nat, |i: int| '#'),
                Style { bold: true, ..colored(Color::Magenta) },
            ),
            MarkdownEventView::Start(Element::Item) => r.step(event, width, base).ink() == r.ink()
                + inked(
                if r.lists.len() > 0 && r.lists.last() is Some {
                    decimal_of(r.lists.last()->0 as nat).push('.')
                } else {
                    seq!['-']
                },
                r.style(base),
            ),
            _ => r.step(event, width, base).ink() == r.ink(),
        },
{
    let style = r.style(base);
    match event {
        MarkdownEventView::Text(t) => if !r.in_code_block {
            lemma_all_words_ink(r, words_of(t), style);
            lemma_seen_words(t, style);
        },
        MarkdownEventView::Code(code) => if !r.in_code_block {
            lemma_all_words_ink(r, words_of(code), colored(CODE));
            lemma_seen_words(code, colored(CODE));
        },
        MarkdownEventView::Start(element) => {
            let opened = Rendering { open: r.open.push(element), ..r };
            assert(opened.ink() == r.ink());
            lemma_flushed_ink(opened, width);
            let flushed = opened.flushed(width);
            match element {
                Element::Heading(rank) => {
                    let heading = bolded(colored(HEADING));
                    assert(flushed.pushed(heading).ink() == flushed.ink());
                    lemma_word_ink(
                        flushed.pushed(heading),
                        repeated('#', rank as nat),
                        heading,
                    );
                    assert(repeated('#', rank as nat) =~= Seq::new(rank as nat, |i: int| '#'));
                },
                Element::Item => {
                    let marker = flushed.marker();
                    let next = Rendering {
                        prefix: flushed.prefix + repeated(' ', marker.len()),
                        ..flushed.counted()
                    };
                    assert(next.ink() == flushed.ink());
                    lemma_word_ink(next, marker, style);
                    reveal_strlit("- ");
                    reveal_strlit(". ");
                    let bare = if r.ordered() {
                        decimal_of(r.lists.last()->0 as nat).push('.')
                    } else {
                        seq!['-']
                    };
                    assert(marker =~= bare.push(' '));
                    text::lemma_seen_push(bare, ' ');
                    assert(inked(marker, style) =~= inked(bare, style));
                },
                Element::CodeBlock => {
                    assert(opened.start(element, width, base).ink() == flushed.ink());
                },
                _ => {
                    assert(opened.start(element, width, base).ink() == opened.ink());
                },
            }
        },
        MarkdownEventView::End => if r.open.len() > 0 {
            let closed = Rendering { open: r.open.drop_last(), ..r };
            assert(closed.ink() == r.ink());
            lemma_flushed_ink(closed, width);
            let flushed = closed.flushed(width);
            match r.open.last() {
                Element::Heading(_) => {
                    assert(flushed.popped().ink() == flushed.ink());
                    lemma_line_ink(flushed.popped(), blank_line());
                },
                Element::Paragraph => {
                    lemma_line_ink(flushed, blank_line());
                },
                Element::CodeBlock => {
                    let lines = code_lines(r.code_block, width, r.prefix);
                    lemma_code_is_no_prose(r.code_block, width, r.prefix);
                    lemma_no_prose(lines);
                    lemma_lines_ink_add(r.lines, lines);
                    let next = Rendering {
                        in_code_block: false,
                        lines: closed.lines + lines,
                        ..closed
                    };
                    assert(next.ink() =~= closed.ink());
                    lemma_line_ink(next, blank_line());
                },
                Element::Item => {
                    assert(flushed.outdented(
                        if closed.ordered() {
                            3
                        } else {
                            2
                        },
                    ).ink() == flushed.ink());
                },
                Element::List(_) => {
                    let next = Rendering {
                        lists: if closed.lists.len() > 0 {
                            closed.lists.drop_last()
                        } else {
                            closed.lists
                        },
                        ..closed
                    };
                    assert(next.ink() == closed.ink());
                    lemma_line_ink(next, blank_line());
                },
                Element::Quote => {
                    assert(closed.outdented(2).ink() == closed.ink());
                },
                _ => {
                    assert(closed.popped().ink() == closed.ink());
                },
            }
        },
        MarkdownEventView::SoftBreak => {
            lemma_word_ink(r, Seq::empty(), style);
            lemma_inked_space(style);
            assert(r.word(Seq::empty(), style).ink() =~= r.ink());
        },
        MarkdownEventView::HardBreak => {
            lemma_flushed_ink(r, width);
        },
        MarkdownEventView::Rule => {
            lemma_flushed_ink(r, width);
            let rule = styled_line(
                repeated(
                    '─',
                    if width > 0 {
                        width
                    } else {
                        1
                    },
                ),
                colored(RULE),
            );
            lemma_line_ink(r.flushed(width), rule);
            lemma_line_ink(r.flushed(width).line(rule), blank_line());
        },
        MarkdownEventView::Other => {},
    }
}

/// The lines of code have one run each.
proof fn lemma_code_is_no_prose(code: Seq<char>, width: nat, prefix: Seq<char>)
    ensures
        forall|i: int|
            0 <= i < code_lines(code, width, prefix).len() ==> (#[trigger] code_lines(
                code,
                width,
                prefix,
            )[i]).spans.len() <= 1,
{
    let indent = prefix + "  "@;
    lemma_code_spans(
        split_on(crate::support::feeds_trimmed(code), '\n'),
        body_width(width, indent),
        indent,
    );
}

proof fn lemma_code_spans(raw_lines: Seq<Seq<char>>, body: nat, indent: Seq<char>)
    ensures
        forall|i: int|
            0 <= i < code_lines_of(raw_lines, body, indent).len() ==> (#[trigger] code_lines_of(
                raw_lines,
                body,
                indent,
            )[i]).spans.len() <= 1,
    decreases raw_lines.len(),
{
    if raw_lines.len() > 0 {
        lemma_code_spans(raw_lines.drop_last(), body, indent);
        let before = code_lines_of(raw_lines.drop_last(), body, indent);
        let own = code_line(raw_lines.last(), body, indent);
        let all = code_lines_of(raw_lines, body, indent);
        assert forall|i: int| 0 <= i < all.len() implies (#[trigger] all[i]).spans.len() <= 1 by {
            if i < before.len() {
                assert(all[i] == before[i]);
            } else {
                assert(all[i] == own[i - before.len()]);
            }
        }
    }
}

/// A code block is shown letter for letter: behind the indent of each of its lines stands a piece
/// of the code, in the color of code, and the pieces one after the other are the code but for its
/// line feeds.
pub proof fn code_is_shown_letter_for_letter(code: Seq<char>, width: nat, prefix: Seq<char>) -> (
    pieces: Seq<Seq<char>>)
    ensures
        pieces.len() == code_lines(code, width, prefix).len(),
        pieces.flatten() == code.filter(|c: char| c != '\n'),
        forall|i: int|
            0 <= i < pieces.len() ==> {
                &&& code_lines(code, width, prefix)[i] == styled_line(
                    prefix + seq![' ', ' '] + #[trigger] pieces[i],
                    colored(Color::Yellow),
                )
                &&& pieces[i].len() <= body_width(width, prefix + seq![' ', ' '])
            },
{
    reveal_strlit("  ");
    let indent = prefix + "  "@;
    assert("  "@ =~= seq![' ', ' ']);
    let kept = crate::support::feeds_trimmed(code);
    let raw_lines = split_on(kept, '\n');
    let pieces = lemma_code_pieces(raw_lines, body_width(width, indent), indent);
    lemma_lines_are_code(kept);
    lemma_trimmed_feeds(code);
    pieces
}

proof fn lemma_code_pieces(raw_lines: Seq<Seq<char>>, body: nat, indent: Seq<char>) -> (pieces:
    Seq<Seq<char>>)
    requires
        body > 0,
    ensures
        pieces.len() == code_lines_of(raw_lines, body, indent).len(),
        pieces.flatten() == raw_lines.flatten(),
        forall|i: int|
            0 <= i < pieces.len() ==> {
                &&& code_lines_of(raw_lines, body, indent)[i] == styled_line(
                    indent + #[trigger] pieces[i],
                    colored(CODE),
                )
                &&& pieces[i].len() <= body
            },
    decreases raw_lines.len(),
{
    if raw_lines.len() == 0 {
        assert(raw_lines =~= Seq::<Seq<char>>::empty());
        Seq::empty()
    } else {
        let init = raw_lines.drop_last();
        let before = lemma_code_pieces(init, body, indent);
        let own = chunked(raw_lines.last(), body);
        chunks_are_the_text(raw_lines.last(), body);
        let pieces = before + own;
        vstd::seq_lib::lemma_flatten_concat(before, own);
        init.lemma_flatten_push(raw_lines.last());
        assert(init.push(raw_lines.last()) =~= raw_lines);
        let lines = code_lines_of(raw_lines, body, indent);
        assert forall|i: int| 0 <= i < pieces.len() implies {
            &&& lines[i] == styled_line(indent + #[trigger] pieces[i], colored(CODE))
            &&& pieces[i].len() <= body
        } by {
            if i < before.len() {
                assert(pieces[i] == before[i]);
            } else {
                assert(pieces[i] == own[i - before.len()]);
            }
        }
        pieces
    }
}

/// The lines of a text are the text but for its line feeds.
pub(crate) proof fn lemma_lines_are_code(s: Seq<char>)
    ensures
        split_on(s, '\n').flatten() == s.filter(|c: char| c != '\n'),
    decreases s.len(),
{
    reveal(Seq::filter);
    if s.len() == 0 {
        seq![Seq::<char>::empty()].lemma_flatten_one_element();
        assert(split_on(s, '\n') =~= seq![Seq::<char>::empty()]);
    } else {
        let init = s.drop_last();
        lemma_lines_are_code(init);
        text::lemma_split_nonempty(init, '\n');
        let before = split_on(init, '\n');
        if s.last() == '\n' {
            before.lemma_flatten_push(Seq::empty());
            assert(before.flatten() + Seq::<char>::empty() =~= before.flatten());
        } else {
            let line = before.last();
            assert(before.drop_last().push(line) =~= before);
            before.drop_last().lemma_flatten_push(line);
            before.drop_last().lemma_flatten_push(line.push(s.last()));
            assert(split_on(s, '\n').flatten() =~= before.flatten().push(s.last()));
        }
    }
}

/// The line feeds at the end of a text are only line feeds.
proof fn lemma_trimmed_feeds(s: Seq<char>)
    ensures
        crate::support::feeds_trimmed(s).filter(|c: char| c != '\n') == s.filter(
            |c: char| c != '\n',
        ),
    decreases s.len(),
{
    reveal(Seq::filter);
    if s.len() > 0 && s.last() == '\n' {
        lemma_trimmed_feeds(s.drop_last());
    }
}

/// What is rendered is all that the events were read as: what can be seen of the prose in the
/// lines is what could be seen after the last event.
pub proof fn the_lines_are_all_that_was_read(
    events: Seq<MarkdownEventView>,
    width: nat,
    base: Style,
    lead: Seq<char>,
)
    ensures
        lines_ink(rendered(events, width, base, lead)) == rendering(
            events,
            width,
            base,
            lead,
        ).ink(),
        rendering(Seq::empty(), width, base, lead).ink() == Seq::<(char, Style)>::empty(),
{
    let r = rendering(events, width, base, lead);
    lemma_flushed_ink(r, width);
    lemma_words_ink_push(Seq::empty(), WordView { word: lead, style: base });
    let lines = r.flushed(width).lines;
    assert(words_ink(r.flushed(width).words) =~= Seq::<(char, Style)>::empty()) by {
        assert(r.flushed(width).words =~= Seq::<WordView>::empty());
    }
    assert(lines_ink(lines) =~= r.ink());
    lemma_blank_end_ink(lines);
    lemma_lines_ink_push(Seq::empty(), blank_line());
    lemma_no_prose(seq![blank_line()]);
    if without_blank_end(lines).len() == 0 {
        assert(without_blank_end(lines) =~= Seq::<LineView>::empty());
    }
    assert(rendering(Seq::empty(), width, base, lead).ink() =~= Seq::<(char, Style)>::empty());
}

proof fn lemma_blank_end_ink(lines: Seq<LineView>)
    ensures
        lines_ink(without_blank_end(lines)) == lines_ink(lines),
    decreases lines.len(),
{
    if lines.len() > 0 && lines.last().spans.len() == 0 {
        let init = lines.drop_last();
        lemma_blank_end_ink(init);
        lemma_lines_ink_push(init, lines.last());
        assert(init.push(lines.last()) =~= lines);
        lemma_spans_ink_push(Seq::empty(), raw(" "@));
        assert(lines.last().spans =~= Seq::<SpanView>::empty());
        assert(lines_ink(lines) =~= lines_ink(init));
    }
}

/// An element changes the style of what stands in it and of nothing behind it: bold, italics and
/// crossing out come on top of the style around them, and once an element has ended the styles,
/// the lists and the elements under way are those from before it.
pub proof fn an_element_ends_where_it_ends(
    r: Rendering,
    element: Element,
    width: nat,
    base: Style,
)
    requires
        r.styles.len() > 0,
        !(element is Item),
    ensures
        ({
            let inside = r.step(MarkdownEventView::Start(element), width, base);
            let behind = inside.step(MarkdownEventView::End, width, base);
            &&& match element {
                Element::Strong => inside.style(base) == Style { bold: true, ..r.style(base) },
                Element::Emphasis => inside.style(base) == Style { italic: true, ..r.style(base) },
                Element::Strikethrough => inside.style(base) == Style {
                    crossed_out: true,
                    ..r.style(base)
                },
                Element::Heading(_) => inside.style(base) == Style {
                    bold: true,
                    ..colored(Color::Magenta)
                },
                _ => inside.style(base) == r.style(base),
            }
            &&& behind.styles == r.styles
            &&& behind.lists == r.lists
            &&& behind.open == r.open
            &&& behind.prefix == r.prefix
            &&& element is Quote ==> inside.prefix == r.prefix + seq!['>', ' ']
            &&& element is CodeBlock ==> inside.in_code_block && !behind.in_code_block
                && inside.code_block.len() == 0
            &&& element is Paragraph || element is Heading ==> behind.words.len() == 0
        }),
{
    reveal_strlit("> ");
    let inside = r.step(MarkdownEventView::Start(element), width, base);
    let behind = inside.step(MarkdownEventView::End, width, base);
    assert(inside.open.drop_last() =~= r.open);
    assert("> "@ =~= seq!['>', ' ']);
    assert(inside.open.last() == element);
    match element {
        Element::Heading(_) => {
            assert(inside.styles.drop_last() =~= r.styles);
        },
        Element::Strong => {
            assert(inside.styles.drop_last() =~= r.styles);
        },
        Element::Emphasis => {
            assert(inside.styles.drop_last() =~= r.styles);
        },
        Element::Strikethrough => {
            assert(inside.styles.drop_last() =~= r.styles);
        },
        Element::List(_) => {
            assert(inside.lists.drop_last() =~= r.lists);
        },
        Element::Quote => {
            if r.prefix.len() > 0 {
                assert(inside.prefix.take(inside.prefix.len() - 2) =~= r.prefix);
            } else {
                assert(r.prefix =~= Seq::<char>::empty());
            }
        },
        _ => {},
    }
}

/// The items of an ordered list are counted: each is marked with the number after that of the one
/// before, and its text is indented as far as its marker reaches.
pub proof fn items_are_counted(r: Rendering, width: nat, base: Style)
    ensures
        ({
            let inside = r.step(MarkdownEventView::Start(Element::Item), width, base);
            &&& r.lists.len() > 0 && r.lists.last() is Some ==> {
                let n = r.lists.last()->0;
                &&& inside.lists.len() == r.lists.len()
                &&& inside.lists.drop_last() == r.lists.drop_last()
                &&& n < u64::MAX ==> inside.lists.last() == Some((n + 1) as u64)
                &&& inside.prefix == r.prefix + Seq::new(decimal_of(n as nat).len() + 2, |i: int| ' ')
            }
            &&& !(r.lists.len() > 0 && r.lists.last() is Some) ==> {
                &&& inside.lists == r.lists
                &&& inside.prefix == r.prefix + seq![' ', ' ']
            }
        }),
{
    reveal_strlit("- ");
    reveal_strlit(". ");
    let opened = Rendering { open: r.open.push(Element::Item), ..r };
    let flushed = opened.flushed(width);
    let inside = r.step(MarkdownEventView::Start(Element::Item), width, base);
    if r.ordered() {
        let n = r.lists.last()->0;
        assert(flushed.marker().len() == decimal_of(n as nat).len() + 2);
        assert(inside.prefix =~= r.prefix + Seq::new(
            decimal_of(n as nat).len() + 2,
            |i: int| ' ',
        ));
        assert(inside.lists.drop_last() =~= r.lists.drop_last());
    } else {
        assert(inside.prefix =~= r.prefix + seq![' ', ' ']);
    }
}

/// How many columns some spans take.
pub open spec fn columns(spans: Seq<SpanView>) -> int {
    spans.fold_left(0int, |n: int, span: SpanView| n + span.content.len())
}

/// A line of wrapped words fits: it takes no more columns than there are, unless one word alone is
/// longer. The first line starts with the prefix, the others with as many spaces.
pub proof fn wrapped_lines_fit(words: Seq<WordView>, width: nat, prefix: Seq<char>)
    ensures
        forall|i: int|
            0 <= i < wrapped_words(words, width, prefix).len() ==> {
                let spans = (#[trigger] wrapped_words(words, width, prefix)[i]).spans;
                &&& spans.len() > 0
                &&& spans[0] == raw(
                    if i == 0 {
                        prefix
                    } else {
                        repeated(' ', prefix.len())
                    },
                )
                &&& spans.len() > 2 ==> columns(spans) <= width || width <= prefix.len()
                    && columns(spans) <= prefix.len() + 1
            },
{
    let body = body_width(width, prefix);
    lemma_layout_fits(words, body, prefix);
    let layout = laid_out(words, body, prefix);
    let lines = wrapped_words(words, width, prefix);
    assert forall|i: int| 0 <= i < lines.len() implies {
        let spans = (#[trigger] lines[i]).spans;
        &&& spans.len() > 0
        &&& spans[0] == raw(
            if i == 0 {
                prefix
            } else {
                repeated(' ', prefix.len())
            },
        )
        &&& spans.len() > 2 ==> columns(spans) <= width || width <= prefix.len() && columns(spans)
            <= prefix.len() + 1
    } by {
        if i < layout.lines.len() {
            assert(lines[i] == layout.lines[i]);
        }
    }
}

proof fn lemma_columns_push(spans: Seq<SpanView>, span: SpanView)
    ensures
        columns(spans.push(span)) == columns(spans) + span.content.len(),
        columns(Seq::empty()) == 0,
{
    reveal_with_fuel(Seq::fold_left, 2);
    assert(spans.push(span).drop_last() =~= spans);
}

proof fn lemma_layout_fits(words: Seq<WordView>, body: nat, prefix: Seq<char>)
    ensures
        ({
            let layout = laid_out(words, body, prefix);
            let n = prefix.len();
            &&& layout.spans.len() > 0
            &&& columns(layout.spans) == n + layout.used
            &&& layout.spans.len() > 2 ==> layout.used <= body
            &&& layout.spans[0] == raw(
                if layout.lines.len() == 0 {
                    prefix
                } else {
                    repeated(' ', n)
                },
            )
            &&& layout.used == 0 ==> layout.spans.len() == 1
            &&& forall|i: int|
                0 <= i < layout.lines.len() ==> {
                    let spans = (#[trigger] layout.lines[i]).spans;
                    &&& spans.len() > 0
                    &&& spans[0] == raw(
                        if i == 0 {
                            prefix
                        } else {
                            repeated(' ', n)
                        },
                    )
                    &&& spans.len() > 2 ==> columns(spans) <= n + body
                }
        }),
    decreases words.len(),
{
    let n = prefix.len();
    lemma_columns_push(Seq::empty(), raw(prefix));
    assert(seq![raw(prefix)] =~= Seq::<SpanView>::empty().push(raw(prefix)));
    if words.len() > 0 {
        let word = words.last();
        let before = laid_out(words.drop_last(), body, prefix);
        let layout = laid_out(words, body, prefix);
        lemma_layout_fits(words.drop_last(), body, prefix);
        let own = styled(word.word, word.style);
        reveal_strlit(" ");
        if word.word.len() == 0 {
        } else if before.used > 0 && before.used + 1 + word.word.len() > body {
            let indent = raw(repeated(' ', n));
            lemma_columns_push(Seq::empty(), indent);
            lemma_columns_push(Seq::empty().push(indent), own);
            assert(layout.spans =~= Seq::empty().push(indent).push(own));
        } else if before.used > 0 {
            lemma_columns_push(before.spans, raw(" "@));
            lemma_columns_push(before.spans.push(raw(" "@)), own);
        } else {
            lemma_columns_push(before.spans, own);
        }
    }
}

/// A hard break ends the line: the words that were waiting are laid out behind the lines so far, and
/// what follows starts anew. A soft one leaves them waiting.
pub proof fn a_break_ends_the_line(r: Rendering, width: nat, base: Style)
    ensures
        ({
            let hard = r.step(MarkdownEventView::HardBreak, width, base);
            let soft = r.step(MarkdownEventView::SoftBreak, width, base);
            &&& hard.words.len() == 0
            &&& r.words.len() > 0 ==> hard.lines == r.lines + wrapped_words(
                r.words,
                width,
                r.prefix,
            )
            &&& r.words.len() == 0 ==> hard.lines == r.lines
            &&& hard.styles == r.styles && hard.prefix == r.prefix && hard.open == r.open
            &&& soft.lines == r.lines
            &&& soft.words.take(r.words.len() as int) == r.words
        }),
{
    let soft = r.step(MarkdownEventView::SoftBreak, width, base);
    assert(soft.words.take(r.words.len() as int) =~= r.words);
}

/// A rule stands on a line of its own, as wide as there is room, with a blank line behind it.
pub proof fn a_rule_stands_on_its_own(r: Rendering, width: nat, base: Style)
    requires
        width > 0,
    ensures
        ({
            let next = r.step(MarkdownEventView::Rule, width, base);
            let n = next.lines.len() as int;
            &&& next.words.len() == 0
            &&& n >= r.lines.len() + 2
            &&& next.lines[n - 2].spans.len() == 1
            &&& next.lines[n - 2].spans[0].content == Seq::new(width, |i: int| '─')
            &&& next.lines[n - 1] == blank_line()
            &&& r.words.len() == 0 ==> next.lines.take(n - 2) == r.lines
        }),
{
    let next = r.step(MarkdownEventView::Rule, width, base);
    assert(repeated('─', width) =~= Seq::new(width, |i: int| '─'));
    if r.words.len() == 0 {
        assert(next.lines.take(next.lines.len() - 2) =~= r.lines);
    }
}

/// A paragraph, a heading, a list and a block of code end with a blank line, and the lines of a block
/// of code stand before it.
pub proof fn a_block_ends_with_a_blank_line(r: Rendering, width: nat, base: Style)
    requires
        r.open.len() > 0,
        r.open.last() is Paragraph || r.open.last() is Heading || r.open.last() is List
            || r.open.last() is CodeBlock,
    ensures
        ({
            let next = r.step(MarkdownEventView::End, width, base);
            &&& next.lines.len() > r.lines.len()
            &&& next.lines.last() == blank_line()
            &&& r.open.last() is CodeBlock ==> next.lines == (r.lines + code_lines(
                r.code_block,
                width,
                r.prefix,
            )).push(blank_line())
        }),
{
}

} // verus!

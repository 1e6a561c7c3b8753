//! The `apply_patch` tool: a whole changeset in one call.
//!
//! A patch is an envelope (`*** Begin Patch` … `*** End Patch`) of file sections. Parsing
//! reads the envelope into sections; applying finds each hunk's lines in the file and
//! rewrites them. A section that cannot apply refuses the whole patch.

use vstd::prelude::*;
use crate::paths::{contained, AbsPath};
use crate::protocol::{block_views, one_text, BlockView, ContentBlock};
use crate::support;
use crate::support::{
    clusters, displayed, rendered_diff, resolution, LineDiff, LineDiffView, DIFF_CONTEXT,
};
use crate::text;
use crate::text::{
    has_prefix, lines_of, split_on, texts, trimmed, trimmed_end,
};
use crate::tool::{
    ToolCapabilities, ToolDescription, ToolError, ToolErrorView, ToolId, ToolKind,
};

verus! {

pub const BEGIN: &'static str = "*** Begin Patch";

pub const END: &'static str = "*** End Patch";

pub const ADD: &'static str = "*** Add File: ";

pub const DELETE: &'static str = "*** Delete File: ";

pub const UPDATE: &'static str = "*** Update File: ";

pub const MOVE: &'static str = "*** Move to: ";

pub const EOF_MARKER: &'static str = "*** End of File";

/// One line of a hunk, keeping which side of the change it belongs to.
#[derive(Debug, PartialEq, Eq)]
pub enum Op {
    Context(String),
    Remove(String),
    Add(String),
}

/// What an [`Op`] says.
pub enum OpView {
    Context(Seq<char>),
    Remove(Seq<char>),
    Add(Seq<char>),
}

impl View for Op {
    type V = OpView;

    open spec fn view(&self) -> OpView {
        match self {
            Op::Context(line) => OpView::Context(line@),
            Op::Remove(line) => OpView::Remove(line@),
            Op::Add(line) => OpView::Add(line@),
        }
    }
}

/// One `@@` block: the lines it expects to find and the lines it leaves behind.
#[derive(Debug, PartialEq, Eq)]
pub struct Hunk {
    /// Text after `@@`, used to jump to the right region when context repeats.
    pub header: Option<String>,
    pub ops: Vec<Op>,
    /// The hunk carried `*** End of File`, so it anchors at the file's end.
    pub at_eof: bool,
}

/// What a [`Hunk`] says.
pub struct HunkView {
    pub header: Option<Seq<char>>,
    pub ops: Seq<OpView>,
    pub at_eof: bool,
}

/// What a list of hunk lines says.
pub open spec fn op_views(ops: Seq<Op>) -> Seq<OpView> {
    ops.map_values(|op: Op| op@)
}

impl View for Hunk {
    type V = HunkView;

    open spec fn view(&self) -> HunkView {
        HunkView { header: text::opt(self.header), ops: op_views(self.ops@), at_eof: self.at_eof }
    }
}

/// One file section of a patch.
#[derive(Debug, PartialEq, Eq)]
pub enum Section {
    Add { path: String, contents: String },
    Delete { path: String },
    Update { path: String, move_to: Option<String>, hunks: Vec<Hunk> },
}

/// What a [`Section`] says.
pub enum SectionView {
    Add { path: Seq<char>, contents: Seq<char> },
    Delete { path: Seq<char> },
    Update { path: Seq<char>, move_to: Option<Seq<char>>, hunks: Seq<HunkView> },
}

/// What a list of hunks says.
pub open spec fn hunk_views(hunks: Seq<Hunk>) -> Seq<HunkView> {
    hunks.map_values(|h: Hunk| h@)
}

impl View for Section {
    type V = SectionView;

    open spec fn view(&self) -> SectionView {
        match self {
            Section::Add { path, contents } => SectionView::Add {
                path: path@,
                contents: contents@,
            },
            Section::Delete { path } => SectionView::Delete { path: path@ },
            Section::Update { path, move_to, hunks } => SectionView::Update {
                path: path@,
                move_to: text::opt(*move_to),
                hunks: hunk_views(hunks@),
            },
        }
    }
}

/// What a list of sections says.
pub open spec fn section_views(sections: Seq<Section>) -> Seq<SectionView> {
    sections.map_values(|s: Section| s@)
}

// Parsing.

/// The failure of a patch that does not parse.
pub open spec fn bad_patch_view(message: Seq<char>) -> ToolErrorView {
    ToolErrorView::Execution { code: "bad_patch"@, message }
}

/// The failure of a patch that does not parse or cannot be planned.
pub fn bad_patch(message: String) -> (r: ToolError)
    ensures
        r@ == bad_patch_view(message@),
{
    ToolError::custom("bad_patch", message)
}

/// The text without line breaks at its start.
pub open spec fn breaks_trimmed_start(s: Seq<char>) -> Seq<char>
    decreases s.len(),
{
    if s.len() > 0 && (s[0] == '\n' || s[0] == '\r') {
        breaks_trimmed_start(s.drop_first())
    } else {
        s
    }
}

/// The text without line breaks at its end.
pub open spec fn breaks_trimmed_end(s: Seq<char>) -> Seq<char>
    decreases s.len(),
{
    if s.len() > 0 && (s.last() == '\n' || s.last() == '\r') {
        breaks_trimmed_end(s.drop_last())
    } else {
        s
    }
}

/// The text without carriage returns at its end.
pub open spec fn returns_trimmed(s: Seq<char>) -> Seq<char>
    decreases s.len(),
{
    if s.len() > 0 && s.last() == '\r' {
        returns_trimmed(s.drop_last())
    } else {
        s
    }
}

/// The lines that the parser reads: line breaks around the patch and carriage returns at
/// the end of a line do not count.
pub open spec fn patch_lines(patch: Seq<char>) -> Seq<Seq<char>> {
    lines_of(breaks_trimmed_end(breaks_trimmed_start(patch))).map_values(
        |l: Seq<char>| returns_trimmed(l),
    )
}

/// `s` with carriage returns trimmed off its end.
fn trim_returns(s: &str) -> (r: String)
    ensures
        r@ == returns_trimmed(s@),
{
    let v = text::to_chars(s);
    let mut j: usize = v.len();
    assert(v@.take(j as int) =~= v@);
    while j > 0 && v[j - 1] == '\r'
        invariant
            j <= v.len(),
            returns_trimmed(v@) == returns_trimmed(v@.take(j as int)),
        decreases j,
    {
        assert(v@.take(j as int).drop_last() =~= v@.take(j as int - 1));
        j -= 1;
    }
    assert(v@.take(j as int) =~= v@.subrange(0, j as int));
    text::from_chars(&v, 0, j)
}

/// `s` with line breaks trimmed off both ends.
fn trim_breaks(s: &str) -> (r: String)
    ensures
        r@ == breaks_trimmed_end(breaks_trimmed_start(s@)),
{
    let v = text::to_chars(s);
    let mut i: usize = 0;
    assert(v@.skip(0) =~= v@);
    while i < v.len() && (v[i] == '\n' || v[i] == '\r')
        invariant
            i <= v.len(),
            breaks_trimmed_start(v@) == breaks_trimmed_start(v@.skip(i as int)),
        decreases v.len() - i,
    {
        assert(v@.skip(i as int).drop_first() =~= v@.skip(i as int + 1));
        i += 1;
    }
    let mut j: usize = v.len();
    let ghost rest = v@.skip(i as int);
    assert(rest == breaks_trimmed_start(s@));
    assert(rest =~= v@.subrange(i as int, j as int));
    while j > i && (v[j - 1] == '\n' || v[j - 1] == '\r')
        invariant
            i <= j <= v.len(),
            breaks_trimmed_end(rest) == breaks_trimmed_end(v@.subrange(i as int, j as int)),
        decreases j,
    {
        assert(v@.subrange(i as int, j as int).drop_last() =~= v@.subrange(
            i as int,
            j as int - 1,
        ));
        j -= 1;
    }
    text::from_chars(&v, i, j)
}

/// The lines that the parser reads.
fn read_lines(patch: &str) -> (r: Vec<String>)
    ensures
        texts(r@) == patch_lines(patch@),
{
    let body = trim_breaks(patch);
    let raw = text::lines(body.as_str());
    let mut r: Vec<String> = Vec::new();
    let mut i: usize = 0;
    while i < raw.len()
        invariant
            i <= raw.len(),
            r.len() == i,
            forall|j: int| 0 <= j < i ==> (#[trigger] r@[j])@ == returns_trimmed(raw@[j]@),
        decreases raw.len() - i,
    {
        r.push(trim_returns(raw[i].as_str()));
        i += 1;
    }
    assert(texts(r@) =~= patch_lines(patch@)) by {
        assert forall|j: int| 0 <= j < r.len() implies (#[trigger] r@[j])@ == patch_lines(
            patch@,
        )[j] by {
            assert(texts(raw@)[j] == raw@[j]@);
        }
    }
    r
}

/// Whether a line is `marker`, trailing white space aside.
pub open spec fn is_marker(line: Seq<char>, marker: Seq<char>) -> bool {
    trimmed_end(line) == marker
}

/// What a hunk line stands for; none where its first character is no marker. A blank line
/// is a blank context line.
pub open spec fn op_of(line: Seq<char>) -> Option<OpView> {
    if line.len() == 0 {
        Some(OpView::Context(line))
    } else if line[0] == '+' {
        Some(OpView::Add(line.skip(1)))
    } else if line[0] == '-' {
        Some(OpView::Remove(line.skip(1)))
    } else if line[0] == ' ' {
        Some(OpView::Context(line.skip(1)))
    } else {
        None
    }
}

/// A hunk's lines read from `lines[at..]` behind `done`, where the next section or hunk
/// goes on, and whether an end-of-file marker ended them; or why they do not parse.
pub open spec fn body_of(lines: Seq<Seq<char>>, at: int, done: Seq<OpView>) -> Result<
    (Seq<OpView>, int, bool),
    Seq<char>,
>
    decreases lines.len() - at,
{
    if at < 0 || at >= lines.len() || has_prefix(lines[at], "@@"@) {
        Ok((done, at, false))
    } else if is_marker(lines[at], EOF_MARKER@) {
        Ok((done, at + 1, true))
    } else if has_prefix(lines[at], "*** "@) {
        Ok((done, at, false))
    } else {
        match op_of(lines[at]) {
            Some(op) => body_of(lines, at + 1, done.push(op)),
            None => Err("hunk line must start with ' ', '-' or '+', found `"@ + lines[at] + "`"@),
        }
    }
}

/// The hunk under `header` whose lines start at `at`, and where the text goes on. A hunk
/// without lines only narrows the search: it needs a header and another `@@` behind it.
pub open spec fn hunk_of(lines: Seq<Seq<char>>, at: int, header: Option<Seq<char>>) -> Result<
    (HunkView, int),
    Seq<char>,
> {
    match body_of(lines, at, Seq::empty()) {
        Err(message) => Err(message),
        Ok((ops, next, at_eof)) => if ops.len() == 0 && !(header is Some && !at_eof && 0 <= next
            < lines.len() && has_prefix(lines[next], "@@"@)) {
            Err("hunk is empty"@)
        } else {
            Ok((HunkView { header, ops, at_eof }, next))
        },
    }
}

/// The header behind `@@`, where there is one.
pub open spec fn header_of(line: Seq<char>) -> Option<Seq<char>> {
    let header = trimmed(line.skip(2));
    if header.len() == 0 {
        None
    } else {
        Some(header)
    }
}

/// Whether `lines[at]` ends an update section's hunks.
pub open spec fn hunks_end(lines: Seq<Seq<char>>, at: int) -> bool {
    at < 0 || at >= lines.len() || (has_prefix(lines[at], "*** "@) && !is_marker(
        lines[at],
        EOF_MARKER@,
    ))
}

/// Reading a hunk only moves forward.
pub proof fn lemma_body_advances(lines: Seq<Seq<char>>, at: int, done: Seq<OpView>)
    ensures
        body_of(lines, at, done) matches Ok((_, next, _)) ==> next >= at && (at <= lines.len()
            ==> next <= lines.len()),
    decreases lines.len() - at,
{
    if at < 0 || at >= lines.len() || has_prefix(lines[at], "@@"@) {
    } else if is_marker(lines[at], EOF_MARKER@) {
    } else if has_prefix(lines[at], "*** "@) {
    } else if let Some(op) = op_of(lines[at]) {
        lemma_body_advances(lines, at + 1, done.push(op));
    }
}

/// The hunks of the update section of `path` read from `lines[at..]` behind `done`, and
/// where the text goes on. A blank line behind a hunk that an end-of-file marker ended is slop,
/// not an error.
pub open spec fn hunks_of(
    lines: Seq<Seq<char>>,
    at: int,
    path: Seq<char>,
    done: Seq<HunkView>,
) -> Result<(Seq<HunkView>, int), Seq<char>>
    decreases lines.len() - at,
{
    if hunks_end(lines, at) {
        if done.len() == 0 {
            Err("`"@ + UPDATE@ + path + "` has no hunks"@)
        } else {
            Ok((done, at))
        }
    } else if done.len() > 0 && done.last().at_eof && trimmed(lines[at]).len() == 0 {
        hunks_of(lines, at + 1, path, done)
    } else if !has_prefix(lines[at], "@@"@) {
        Err(
            "`"@ + UPDATE@ + path + "`: expected a hunk starting with `@@`, found `"@ + lines[at]
                + "`"@,
        )
    } else {
        match hunk_of(lines, at + 1, header_of(lines[at])) {
            Err(message) => Err(message),
            Ok((hunk, next)) => {
                proof {
                    lemma_body_advances(lines, at + 1, Seq::empty());
                }
                hunks_of(lines, next, path, done.push(hunk))
            },
        }
    }
}

/// Where the run of `+` lines from `at` ends.
pub open spec fn plus_end(lines: Seq<Seq<char>>, at: int) -> int
    decreases lines.len() - at,
{
    if 0 <= at < lines.len() && has_prefix(lines[at], "+"@) {
        plus_end(lines, at + 1)
    } else {
        at
    }
}

/// The contents that the `+` lines `lines[from..to]` spell out.
pub open spec fn plus_text(lines: Seq<Seq<char>>, from: int, to: int) -> Seq<char>
    decreases to - from,
{
    if to <= from {
        Seq::empty()
    } else {
        plus_text(lines, from, to - 1) + lines[to - 1].skip(1) + "\n"@
    }
}

/// The file section at `lines[at]` and where the text goes on; no section at a blank line.
pub open spec fn section_of(lines: Seq<Seq<char>>, at: int) -> Result<
    (Option<SectionView>, int),
    Seq<char>,
> {
    let line = lines[at];
    if has_prefix(line, ADD@) {
        let end = plus_end(lines, at + 1);
        Ok(
            (
                Some(
                    SectionView::Add {
                        path: trimmed(line.skip(ADD@.len() as int)),
                        contents: plus_text(lines, at + 1, end),
                    },
                ),
                end,
            ),
        )
    } else if has_prefix(line, DELETE@) {
        Ok(
            (
                Some(SectionView::Delete { path: trimmed(line.skip(DELETE@.len() as int)) }),
                at + 1,
            ),
        )
    } else if has_prefix(line, UPDATE@) {
        let path = trimmed(line.skip(UPDATE@.len() as int));
        let moves = at + 1 < lines.len() && has_prefix(lines[at + 1], MOVE@);
        let move_to = if moves {
            Some(trimmed(lines[at + 1].skip(MOVE@.len() as int)))
        } else {
            None
        };
        let start = if moves {
            at + 2
        } else {
            at + 1
        };
        match hunks_of(lines, start, path, Seq::empty()) {
            Err(message) => Err(message),
            Ok((hunks, next)) => Ok((Some(SectionView::Update { path, move_to, hunks }), next)),
        }
    } else if trimmed(line).len() == 0 {
        Ok((None, at + 1))
    } else {
        Err("expected a file section header, found `"@ + line + "`"@)
    }
}

/// Reading `+` lines only moves forward.
pub proof fn lemma_plus_advances(lines: Seq<Seq<char>>, at: int)
    ensures
        plus_end(lines, at) >= at,
        at <= lines.len() ==> plus_end(lines, at) <= lines.len(),
    decreases lines.len() - at,
{
    if 0 <= at < lines.len() && has_prefix(lines[at], "+"@) {
        lemma_plus_advances(lines, at + 1);
    }
}

/// Reading hunks only moves forward.
pub proof fn lemma_hunks_advance(
    lines: Seq<Seq<char>>,
    at: int,
    path: Seq<char>,
    done: Seq<HunkView>,
)
    ensures
        hunks_of(lines, at, path, done) matches Ok((_, next)) ==> next >= at && (at <= lines.len()
            ==> next <= lines.len()),
    decreases lines.len() - at,
{
    if hunks_end(lines, at) {
    } else if done.len() > 0 && done.last().at_eof && trimmed(lines[at]).len() == 0 {
        lemma_hunks_advance(lines, at + 1, path, done);
    } else if has_prefix(lines[at], "@@"@) {
        if let Ok((hunk, next)) = hunk_of(lines, at + 1, header_of(lines[at])) {
            lemma_body_advances(lines, at + 1, Seq::empty());
            lemma_hunks_advance(lines, next, path, done.push(hunk));
        }
    }
}

/// Reading a section only moves forward.
pub proof fn lemma_section_advances(lines: Seq<Seq<char>>, at: int)
    requires
        0 <= at < lines.len(),
    ensures
        section_of(lines, at) matches Ok((_, next)) ==> at < next <= lines.len(),
{
    let line = lines[at];
    lemma_plus_advances(lines, at + 1);
    let path = trimmed(line.skip(UPDATE@.len() as int));
    lemma_hunks_advance(lines, at + 1, path, Seq::empty());
    lemma_hunks_advance(lines, at + 2, path, Seq::empty());
}

/// The sections read from `lines[at..]` behind `done`.
pub open spec fn sections_of(lines: Seq<Seq<char>>, at: int, done: Seq<SectionView>) -> Result<
    Seq<SectionView>,
    Seq<char>,
>
    decreases lines.len() - at,
{
    if at < 0 || at >= lines.len() {
        Err("patch must end with `"@ + END@ + "`"@)
    } else if is_marker(lines[at], END@) {
        if done.len() == 0 {
            Err("patch contains no file sections"@)
        } else {
            Ok(done)
        }
    } else {
        match section_of(lines, at) {
            Err(message) => Err(message),
            Ok((section, next)) => {
                proof {
                    lemma_section_advances(lines, at);
                }
                sections_of(
                    lines,
                    next,
                    match section {
                        Some(section) => done.push(section),
                        None => done,
                    },
                )
            },
        }
    }
}

/// The sections of a patch, or why it does not parse.
pub open spec fn parsed(patch: Seq<char>) -> Result<Seq<SectionView>, Seq<char>> {
    let lines = patch_lines(patch);
    if lines.len() == 0 || !is_marker(lines[0], BEGIN@) {
        Err("patch must start with `"@ + BEGIN@ + "`"@)
    } else {
        sections_of(lines, 1, Seq::empty())
    }
}

/// What one hunk line stands for.
fn read_op(line: &str) -> (r: Option<Op>)
    ensures
        match r {
            Some(op) => op_of(line@) == Some(op@),
            None => op_of(line@) is None,
        },
{
    let v = text::to_chars(line);
    if v.len() == 0 {
        assert(line@ =~= Seq::<char>::empty());
        return Some(Op::Context(text::copy(line)));
    }
    assert(v@.skip(1) =~= v@.subrange(1, v.len() as int));
    let rest = text::from_chars(&v, 1, v.len());
    if v[0] == '+' {
        Some(Op::Add(rest))
    } else if v[0] == '-' {
        Some(Op::Remove(rest))
    } else if v[0] == ' ' {
        Some(Op::Context(rest))
    } else {
        None
    }
}

/// Reads the hunk under `header` whose lines start at `lines[at]`, and says where the text
/// goes on.
pub fn parse_hunk(header: Option<String>, lines: &Vec<String>, at: usize) -> (r: Result<
    (Hunk, usize),
    ToolError,
>)
    requires
        at <= lines.len(),
    ensures
        match hunk_of(texts(lines@), at as int, text::opt(header)) {
            Ok((hunk, next)) => r is Ok && r->Ok_0.0@ == hunk && r->Ok_0.1 == next,
            Err(message) => r is Err && r->Err_0@ == bad_patch_view(message),
        },
{
    let ghost all = texts(lines@);
    let ghost whole = body_of(all, at as int, Seq::empty());
    let mut ops: Vec<Op> = Vec::new();
    let mut at_eof = false;
    let mut i: usize = at;
    assert(op_views(ops@) =~= Seq::empty());
    while i < lines.len()
        invariant_except_break
            !at_eof,
            whole == body_of(all, i as int, op_views(ops@)),
        invariant
            i <= lines.len(),
            all == texts(lines@),
            whole == body_of(all, at as int, Seq::empty()),
        ensures
            i <= lines.len(),
            whole == Ok::<_, Seq<char>>((op_views(ops@), i as int, at_eof)),
        decreases lines.len() - i,
    {
        let next = lines[i].as_str();
        assert(next@ == all[i as int]);
        if text::starts_with(next, "@@") {
            break;
        }
        let end = text::trim_end(next);
        if text::eq(end.as_str(), EOF_MARKER) {
            at_eof = true;
            i += 1;
            break;
        }
        if text::starts_with(next, "*** ") {
            break;
        }
        match read_op(next) {
            Some(op) => {
                let ghost before = op_views(ops@);
                let ghost view = op@;
                ops.push(op);
                assert(op_views(ops@) =~= before.push(view));
            },
            None => {
                let message = text::concat3(
                    "hunk line must start with ' ', '-' or '+', found `",
                    next,
                    "`",
                );
                return Err(bad_patch(message));
            },
        }
        i += 1;
    }
    if ops.len() == 0 {
        let mut narrows = false;
        if header.is_some() && !at_eof && i < lines.len() {
            assert(lines@[i as int]@ == all[i as int]);
            narrows = text::starts_with(lines[i].as_str(), "@@");
        }
        if !narrows {
            let message = text::copy("hunk is empty");
            return Err(bad_patch(message));
        }
    }
    Ok((Hunk { header, ops, at_eof }, i))
}

/// Reads the hunks of the update section of `path` from `lines[at]` on.
fn parse_hunks(path: &str, lines: &Vec<String>, at: usize) -> (r: Result<
    (Vec<Hunk>, usize),
    ToolError,
>)
    requires
        at <= lines.len(),
    ensures
        match hunks_of(texts(lines@), at as int, path@, Seq::empty()) {
            Ok((hunks, next)) => r is Ok && hunk_views(r->Ok_0.0@) == hunks && r->Ok_0.1 == next,
            Err(message) => r is Err && r->Err_0@ == bad_patch_view(message),
        },
{
    let ghost all = texts(lines@);
    let ghost whole = hunks_of(all, at as int, path@, Seq::empty());
    let mut hunks: Vec<Hunk> = Vec::new();
    let mut i: usize = at;
    assert(hunk_views(hunks@) =~= Seq::empty());
    while i < lines.len()
        invariant
            i <= lines.len(),
            all == texts(lines@),
            whole == hunks_of(all, at as int, path@, Seq::empty()),
            whole == hunks_of(all, i as int, path@, hunk_views(hunks@)),
        ensures
            i <= lines.len(),
            hunks_end(all, i as int),
        decreases lines.len() - i,
    {
        let next = lines[i].as_str();
        assert(next@ == all[i as int]);
        if text::starts_with(next, "*** ") {
            let end = text::trim_end(next);
            if !text::eq(end.as_str(), EOF_MARKER) {
                break;
            }
        }
        if hunks.len() > 0 && hunks[hunks.len() - 1].at_eof {
            assert(hunk_views(hunks@).last() == hunks@[hunks.len() - 1]@);
            let visible = text::trim(next);
            if visible.as_str().unicode_len() == 0 {
                i += 1;
                continue;
            }
        }
        assert(hunks.len() > 0 ==> hunk_views(hunks@).last() == hunks@[hunks.len() - 1]@);
        match text::strip_prefix(next, "@@") {
            None => {
                let mut message = text::concat3("`", UPDATE, path);
                message.append("`: expected a hunk starting with `@@`, found `");
                message.append(next);
                message.append("`");
                return Err(bad_patch(message));
            },
            Some(rest) => {
                proof {
                    reveal_strlit("@@");
                }
                let header = text::trim(rest.as_str());
                let header = if header.as_str().unicode_len() == 0 {
                    None
                } else {
                    Some(header)
                };
                assert(text::opt(header) == header_of(next@));
                match parse_hunk(header, lines, i + 1) {
                    Err(error) => {
                        return Err(error);
                    },
                    Ok((hunk, after)) => {
                        let ghost before = hunk_views(hunks@);
                        let ghost view = hunk@;
                        proof {
                            lemma_body_advances(all, i + 1, Seq::empty());
                        }
                        hunks.push(hunk);
                        assert(hunk_views(hunks@) =~= before.push(view));
                        i = after;
                    },
                }
            },
        }
    }
    if hunks.len() == 0 {
        let message = text::concat3("`", UPDATE, path);
        let message = text::concat(message.as_str(), "` has no hunks");
        return Err(bad_patch(message));
    }
    Ok((hunks, i))
}

/// Reads a patch into its sections.
pub fn parse(patch: &str) -> (r: Result<Vec<Section>, ToolError>)
    ensures
        match parsed(patch@) {
            Ok(sections) => r is Ok && section_views(r->Ok_0@) == sections,
            Err(message) => r is Err && r->Err_0@ == bad_patch_view(message),
        },
{
    let lines = read_lines(patch);
    let ghost all = texts(lines@);
    let mut opened = false;
    if lines.len() > 0 {
        let first = text::trim_end(lines[0].as_str());
        assert(lines@[0]@ == all[0]);
        opened = text::eq(first.as_str(), BEGIN);
    }
    if !opened {
        let message = text::concat3("patch must start with `", BEGIN, "`");
        return Err(bad_patch(message));
    }
    let mut sections: Vec<Section> = Vec::new();
    let mut i: usize = 1;
    assert(section_views(sections@) =~= Seq::empty());
    while i < lines.len()
        invariant
            1 <= i <= lines.len(),
            all == texts(lines@),
            parsed(patch@) == sections_of(all, i as int, section_views(sections@)),
        decreases lines.len() - i,
    {
        let line = lines[i].as_str();
        assert(line@ == all[i as int]);
        let ghost before = section_views(sections@);
        proof {
            lemma_section_advances(all, i as int);
        }
        let end = text::trim_end(line);
        if text::eq(end.as_str(), END) {
            if sections.len() == 0 {
                let message = text::copy("patch contains no file sections");
                return Err(bad_patch(message));
            }
            return Ok(sections);
        }
        if let Some(path) = text::strip_prefix(line, ADD) {
            let mut contents = String::new();
            let mut k: usize = i + 1;
            assert(contents@ =~= plus_text(all, i + 1, k as int));
            while k < lines.len()
                invariant
                    i < k <= lines.len(),
                    all == texts(lines@),
                    contents@ == plus_text(all, i + 1, k as int),
                    plus_end(all, i + 1) == plus_end(all, k as int),
                ensures
                    k <= lines.len(),
                    k as int == plus_end(all, i + 1),
                decreases lines.len() - k,
            {
                assert(lines@[k as int]@ == all[k as int]);
                match text::strip_prefix(lines[k].as_str(), "+") {
                    None => {
                        break;
                    },
                    Some(added) => {
                        proof {
                            reveal_strlit("+");
                        }
                        contents.append(added.as_str());
                        contents.append("\n");
                        k += 1;
                    },
                }
            }
            let path = text::trim(path.as_str());
            let section = Section::Add { path, contents };
            let ghost view = section@;
            sections.push(section);
            assert(section_views(sections@) =~= before.push(view));
            i = k;
        } else if let Some(path) = text::strip_prefix(line, DELETE) {
            let path = text::trim(path.as_str());
            let section = Section::Delete { path };
            let ghost view = section@;
            sections.push(section);
            assert(section_views(sections@) =~= before.push(view));
            i += 1;
        } else if let Some(path) = text::strip_prefix(line, UPDATE) {
            let path = text::trim(path.as_str());
            let mut move_to: Option<String> = None;
            let mut start: usize = i + 1;
            if i + 1 < lines.len() {
                assert(lines@[i + 1]@ == all[i + 1]);
                if let Some(target) = text::strip_prefix(lines[i + 1].as_str(), MOVE) {
                    move_to = Some(text::trim(target.as_str()));
                    start = i + 2;
                }
            }
            match parse_hunks(path.as_str(), &lines, start) {
                Err(error) => {
                    return Err(error);
                },
                Ok((hunks, after)) => {
                    let section = Section::Update { path, move_to, hunks };
                    let ghost view = section@;
                    sections.push(section);
                    assert(section_views(sections@) =~= before.push(view));
                    i = after;
                },
            }
        } else {
            let blank = text::trim(line);
            if blank.as_str().unicode_len() == 0 {
                i += 1;
            } else {
                let message = text::concat3("expected a file section header, found `", line, "`");
                return Err(bad_patch(message));
            }
        }
    }
    let message = text::concat3("patch must end with `", END, "`");
    Err(bad_patch(message))
}

// Applying.

/// The line that `op` expects to find, where it expects one.
pub open spec fn expected(op: OpView) -> Option<Seq<char>> {
    match op {
        OpView::Context(line) => Some(line),
        OpView::Remove(line) => Some(line),
        OpView::Add(_) => None,
    }
}

/// The lines that a hunk expects to find, in file order.
pub open spec fn before_of(ops: Seq<OpView>) -> Seq<Seq<char>>
    decreases ops.len(),
{
    if ops.len() == 0 {
        Seq::empty()
    } else {
        match expected(ops.last()) {
            Some(line) => before_of(ops.drop_last()).push(line),
            None => before_of(ops.drop_last()),
        }
    }
}

/// The lines that a hunk leaves behind where it matched `matched`: context as the file has
/// it, and the added lines as the hunk has them.
pub open spec fn after_of(ops: Seq<OpView>, matched: Seq<Seq<char>>) -> Seq<Seq<char>>
    decreases ops.len(),
{
    if ops.len() == 0 {
        Seq::empty()
    } else {
        let rest = after_of(ops.drop_last(), matched);
        let consumed = before_of(ops.drop_last()).len() as int;
        match ops.last() {
            OpView::Context(line) => rest.push(
                if consumed < matched.len() {
                    matched[consumed]
                } else {
                    line
                },
            ),
            OpView::Remove(_) => rest,
            OpView::Add(line) => rest.push(line),
        }
    }
}

impl Hunk {
    /// The lines this hunk expects to find, in file order.
    pub fn before(&self) -> (r: Vec<String>)
        ensures
            texts(r@) == before_of(self@.ops),
    {
        let ghost ops = self@.ops;
        let mut r: Vec<String> = Vec::new();
        let mut i: usize = 0;
        assert(texts(r@) =~= before_of(ops.take(0)));
        while i < self.ops.len()
            invariant
                i <= self.ops.len(),
                ops == op_views(self.ops@),
                texts(r@) == before_of(ops.take(i as int)),
            decreases self.ops.len() - i,
        {
            let ghost done = texts(r@);
            assert(ops.take(i as int + 1).drop_last() =~= ops.take(i as int));
            match &self.ops[i] {
                Op::Context(line) => {
                    r.push(line.clone());
                    assert(texts(r@) =~= done.push(line@));
                },
                Op::Remove(line) => {
                    r.push(line.clone());
                    assert(texts(r@) =~= done.push(line@));
                },
                Op::Add(_) => {},
            }
            i += 1;
        }
        assert(ops.take(i as int) =~= ops);
        r
    }

    /// The lines this hunk leaves behind, given what it actually matched.
    ///
    /// Context lines are taken from `matched` rather than from the patch: a match may have
    /// been loose about white space, and the file's indentation is the truth. Only `+`
    /// lines come from the patch.
    pub fn after(&self, matched: &Vec<String>) -> (r: Vec<String>)
        ensures
            texts(r@) == after_of(self@.ops, texts(matched@)),
    {
        let ghost ops = self@.ops;
        let ghost found = texts(matched@);
        let mut r: Vec<String> = Vec::new();
        let mut consumed: usize = 0;
        let mut i: usize = 0;
        assert(texts(r@) =~= after_of(ops.take(0), found));
        while i < self.ops.len()
            invariant
                consumed <= i <= self.ops.len(),
                ops == op_views(self.ops@),
                found == texts(matched@),
                consumed == before_of(ops.take(i as int)).len(),
                texts(r@) == after_of(ops.take(i as int), found),
            decreases self.ops.len() - i,
        {
            let ghost done = texts(r@);
            assert(ops.take(i as int + 1).drop_last() =~= ops.take(i as int));
            match &self.ops[i] {
                Op::Context(line) => {
                    if consumed < matched.len() {
                        assert(found[consumed as int] == matched@[consumed as int]@);
                        r.push(matched[consumed].clone());
                        assert(texts(r@) =~= done.push(found[consumed as int]));
                    } else {
                        r.push(line.clone());
                        assert(texts(r@) =~= done.push(line@));
                    }
                    consumed += 1;
                },
                Op::Remove(_) => {
                    consumed += 1;
                },
                Op::Add(line) => {
                    r.push(line.clone());
                    assert(texts(r@) =~= done.push(line@));
                },
            }
            i += 1;
        }
        assert(ops.take(i as int) =~= ops);
        r
    }
}

/// The lines of a file, each of which a line feed ends, but for the last where none does.
pub open spec fn file_lines(contents: Seq<char>) -> Seq<Seq<char>> {
    if contents.len() == 0 {
        Seq::empty()
    } else if contents.last() == '\n' {
        split_on(contents.drop_last(), '\n')
    } else {
        split_on(contents, '\n')
    }
}

/// The lines of a file.
pub fn split_lines(contents: &str) -> (r: Vec<String>)
    ensures
        texts(r@) == file_lines(contents@),
{
    let v = text::to_chars(contents);
    if v.len() == 0 {
        let r: Vec<String> = Vec::new();
        assert(texts(r@) =~= file_lines(contents@));
        return r;
    }
    if v[v.len() - 1] == '\n' {
        assert(v@.drop_last() =~= v@.subrange(0, v.len() - 1));
        let body = text::from_chars(&v, 0, v.len() - 1);
        text::split(body.as_str(), '\n')
    } else {
        text::split(contents, '\n')
    }
}

/// How loosely two lines are compared.
#[derive(Clone, Copy, Debug, PartialEq, Eq, Structural)]
pub enum Pass {
    /// Letter for letter.
    Exact,
    /// Trailing white space aside.
    TrimEnd,
    /// White space at both ends aside.
    Trim,
}

/// What a pass compares of a line.
pub open spec fn normalized(pass: Pass, line: Seq<char>) -> Seq<char> {
    match pass {
        Pass::Exact => line,
        Pass::TrimEnd => trimmed_end(line),
        Pass::Trim => trimmed(line),
    }
}

/// Whether `pattern` matches the lines from `at` on.
pub open spec fn matches_at(
    pass: Pass,
    lines: Seq<Seq<char>>,
    pattern: Seq<Seq<char>>,
    at: int,
) -> bool {
    &&& 0 <= at
    &&& at + pattern.len() <= lines.len()
    &&& forall|k: int|
        0 <= k < pattern.len() ==> normalized(pass, lines[at + k]) == normalized(
            pass,
            #[trigger] pattern[k],
        )
}

/// The first place at or behind `from` where `pattern` matches.
pub open spec fn first_match(
    pass: Pass,
    lines: Seq<Seq<char>>,
    pattern: Seq<Seq<char>>,
    from: int,
) -> Option<int>
    decreases lines.len() - from,
{
    if from < 0 || from + pattern.len() > lines.len() {
        None
    } else if matches_at(pass, lines, pattern, from) {
        Some(from)
    } else if from >= lines.len() {
        None
    } else {
        first_match(pass, lines, pattern, from + 1)
    }
}

/// The first match of the strictest pass that has one.
pub open spec fn best_match(
    lines: Seq<Seq<char>>,
    pattern: Seq<Seq<char>>,
    from: int,
) -> Option<int> {
    if first_match(Pass::Exact, lines, pattern, from) is Some {
        first_match(Pass::Exact, lines, pattern, from)
    } else if first_match(Pass::TrimEnd, lines, pattern, from) is Some {
        first_match(Pass::TrimEnd, lines, pattern, from)
    } else {
        first_match(Pass::Trim, lines, pattern, from)
    }
}

/// Where a pattern would stand at the end of the file, or `start` where that is behind.
pub open spec fn end_or(lines: Seq<Seq<char>>, pattern: Seq<Seq<char>>, start: int) -> int {
    if start < lines.len() - pattern.len() {
        lines.len() - pattern.len()
    } else {
        start
    }
}

/// Where a hunk lands, at or behind `start`: one at the end of the file there if it matches
/// there, and any other at its best match. One that expects no lines matches anywhere, so it
/// lands at the end of the file or at `start`.
pub open spec fn sought(
    lines: Seq<Seq<char>>,
    pattern: Seq<Seq<char>>,
    start: int,
    at_eof: bool,
) -> Option<int> {
    if pattern.len() == 0 {
        Some(
            if !at_eof && start < lines.len() {
                start
            } else {
                lines.len() as int
            },
        )
    } else if at_eof && best_match(lines, pattern, end_or(lines, pattern, start)) is Some {
        best_match(lines, pattern, end_or(lines, pattern, start))
    } else {
        best_match(lines, pattern, start)
    }
}

/// Whether a pass finds two lines equal.
fn same_line(pass: Pass, a: &str, b: &str) -> (r: bool)
    ensures
        r == (normalized(pass, a@) == normalized(pass, b@)),
{
    match pass {
        Pass::Exact => text::eq(a, b),
        Pass::TrimEnd => {
            let x = text::trim_end(a);
            let y = text::trim_end(b);
            text::eq(x.as_str(), y.as_str())
        },
        Pass::Trim => {
            let x = text::trim(a);
            let y = text::trim(b);
            text::eq(x.as_str(), y.as_str())
        },
    }
}

/// Whether `pattern` matches the lines from `at` on.
fn lines_match(pass: Pass, lines: &Vec<String>, pattern: &Vec<String>, at: usize) -> (r: bool)
    requires
        at + pattern.len() <= lines.len(),
    ensures
        r == matches_at(pass, texts(lines@), texts(pattern@), at as int),
{
    let mut k: usize = 0;
    while k < pattern.len()
        invariant
            k <= pattern.len(),
            at + pattern.len() <= lines.len(),
            forall|j: int|
                0 <= j < k ==> normalized(pass, texts(lines@)[at + j]) == normalized(
                    pass,
                    #[trigger] texts(pattern@)[j],
                ),
        decreases pattern.len() - k,
    {
        assert(texts(lines@)[at + k] == lines@[at + k]@);
        assert(texts(pattern@)[k as int] == pattern@[k as int]@);
        if !same_line(pass, lines[at + k].as_str(), pattern[k].as_str()) {
            return false;
        }
        k += 1;
    }
    true
}

/// The first place at or behind `from` where `pattern` matches.
fn find_match(pass: Pass, lines: &Vec<String>, pattern: &Vec<String>, from: usize) -> (r: Option<
    usize,
>)
    requires
        pattern.len() > 0,
    ensures
        match first_match(pass, texts(lines@), texts(pattern@), from as int) {
            Some(at) => r == Some(at as usize) && from <= at && at + pattern.len() <= lines.len(),
            None => r is None,
        },
{
    let mut at: usize = from;
    while pattern.len() <= lines.len() && at <= lines.len() - pattern.len()
        invariant
            pattern.len() > 0,
            from <= at,
            first_match(pass, texts(lines@), texts(pattern@), from as int) == first_match(
                pass,
                texts(lines@),
                texts(pattern@),
                at as int,
            ),
        decreases lines.len() - at,
    {
        if lines_match(pass, lines, pattern, at) {
            return Some(at);
        }
        at += 1;
    }
    None
}

/// The first match of the strictest pass that has one.
fn find_best(lines: &Vec<String>, pattern: &Vec<String>, from: usize) -> (r: Option<usize>)
    requires
        pattern.len() > 0,
    ensures
        match best_match(texts(lines@), texts(pattern@), from as int) {
            Some(at) => r == Some(at as usize) && from <= at && at + pattern.len() <= lines.len(),
            None => r is None,
        },
{
    if let Some(at) = find_match(Pass::Exact, lines, pattern, from) {
        return Some(at);
    }
    if let Some(at) = find_match(Pass::TrimEnd, lines, pattern, from) {
        return Some(at);
    }
    find_match(Pass::Trim, lines, pattern, from)
}

/// Finds `pattern` in `lines` at or after `start`, loosening white space as it goes.
///
/// Each pass is tried across the whole range before the next relaxes further, so an exact
/// match always wins over a loose one.
pub fn seek(lines: &Vec<String>, pattern: &Vec<String>, start: usize, at_eof: bool) -> (r: Option<
    usize,
>)
    ensures
        match sought(texts(lines@), texts(pattern@), start as int, at_eof) {
            Some(at) => r == Some(at as usize) && 0 <= at && at + pattern.len() <= lines.len(),
            None => r is None,
        },
{
    if pattern.len() == 0 {
        return Some(
            if !at_eof && start < lines.len() {
                start
            } else {
                lines.len()
            },
        );
    }
    if pattern.len() > lines.len() {
        return None;
    }
    if at_eof {
        let last: usize = lines.len() - pattern.len();
        let from: usize = if start < last {
            last
        } else {
            start
        };
        if let Some(at) = find_best(lines, pattern, from) {
            return Some(at);
        }
    }
    find_best(lines, pattern, start)
}

/// The first line at or behind `from` that is `header`, white space around both aside.
pub open spec fn header_line(lines: Seq<Seq<char>>, from: int, header: Seq<char>) -> Option<int>
    decreases lines.len() - from,
{
    if from < 0 || from >= lines.len() {
        None
    } else if trimmed(lines[from]) == trimmed(header) {
        Some(from)
    } else {
        header_line(lines, from + 1, header)
    }
}

/// Where the search for a hunk starts: behind the line that its header names, where the
/// file still has one at or behind `cursor`.
pub open spec fn search_start(lines: Seq<Seq<char>>, cursor: int, hunk: HunkView) -> int {
    match hunk.header {
        Some(header) => match header_line(lines, cursor, header) {
            Some(at) => at + 1,
            None => cursor,
        },
        None => cursor,
    }
}

/// Where `hunk` lands in `lines`.
pub open spec fn landing(lines: Seq<Seq<char>>, cursor: int, hunk: HunkView) -> Option<int> {
    sought(lines, before_of(hunk.ops), search_start(lines, cursor, hunk), hunk.at_eof)
}

/// The lines that `hunk` leaves behind where it lands at `at`.
pub open spec fn replacement(lines: Seq<Seq<char>>, hunk: HunkView, at: int) -> Seq<Seq<char>> {
    after_of(hunk.ops, lines.subrange(at, at + before_of(hunk.ops).len()))
}

/// `lines` with what `hunk` matched at `at` replaced by what it leaves behind.
pub open spec fn spliced(lines: Seq<Seq<char>>, hunk: HunkView, at: int) -> Seq<Seq<char>> {
    lines.take(at) + replacement(lines, hunk, at) + lines.skip(at + before_of(hunk.ops).len())
}

/// The lines that are left once every hunk has been applied in turn, each searched for
/// behind the one before; or the lines of the first hunk that was not found.
pub open spec fn applied(lines: Seq<Seq<char>>, cursor: int, hunks: Seq<HunkView>) -> Result<
    Seq<Seq<char>>,
    Seq<Seq<char>>,
>
    decreases hunks.len(),
{
    if hunks.len() == 0 {
        Ok(lines)
    } else {
        match landing(lines, cursor, hunks[0]) {
            None => Err(before_of(hunks[0].ops)),
            Some(at) => applied(
                spliced(lines, hunks[0], at),
                at + replacement(lines, hunks[0], at).len(),
                hunks.drop_first(),
            ),
        }
    }
}

/// The line by which a hunk that was not found is named: its first that is not blank.
pub open spec fn sample_of(old: Seq<Seq<char>>) -> Seq<char>
    decreases old.len(),
{
    if old.len() == 0 {
        "<blank>"@
    } else if trimmed(old[0]).len() > 0 {
        old[0]
    } else {
        sample_of(old.drop_first())
    }
}

/// The file contents made of `lines`, where the file held `previous` before. A file that
/// was empty or ended with a line feed ends with one, unless nothing is left of it.
pub open spec fn rejoined(previous: Seq<char>, lines: Seq<Seq<char>>) -> Seq<char> {
    let out = text::joined(lines, "\n"@);
    if out.len() > 0 && (previous.len() == 0 || previous.last() == '\n') {
        out.push('\n')
    } else {
        out
    }
}

/// What a file that held `previous` holds once `hunks` have been applied to it.
pub open spec fn updated(previous: Seq<char>, hunks: Seq<HunkView>, display: Seq<char>) -> Result<
    Seq<char>,
    ToolErrorView,
> {
    match applied(file_lines(previous), 0, hunks) {
        Ok(lines) => Ok(rejoined(previous, lines)),
        Err(old) => Err(
            ToolErrorView::Execution {
                code: "no_match"@,
                message: display + ": hunk context not found, starting at `"@ + sample_of(old)
                    + "`"@,
            },
        ),
    }
}

/// The line by which a hunk that was not found is named.
fn sample(old: &Vec<String>) -> (r: String)
    ensures
        r@ == sample_of(texts(old@)),
{
    let ghost all = texts(old@);
    let mut i: usize = 0;
    assert(all.skip(0) =~= all);
    while i < old.len()
        invariant
            i <= old.len(),
            all == texts(old@),
            sample_of(all) == sample_of(all.skip(i as int)),
        decreases old.len() - i,
    {
        assert(all.skip(i as int)[0] == old@[i as int]@);
        assert(all.skip(i as int).drop_first() =~= all.skip(i as int + 1));
        let visible = text::trim(old[i].as_str());
        if visible.as_str().unicode_len() > 0 {
            return old[i].clone();
        }
        i += 1;
    }
    text::copy("<blank>")
}

/// A copy of `lines[from..to]`.
fn copy_lines(lines: &Vec<String>, from: usize, to: usize) -> (r: Vec<String>)
    requires
        from <= to <= lines.len(),
    ensures
        texts(r@) == texts(lines@).subrange(from as int, to as int),
{
    let mut r: Vec<String> = Vec::new();
    let mut i: usize = from;
    assert(texts(r@) =~= texts(lines@).subrange(from as int, from as int));
    while i < to
        invariant
            from <= i <= to <= lines.len(),
            texts(r@) == texts(lines@).subrange(from as int, i as int),
        decreases to - i,
    {
        let ghost done = texts(r@);
        r.push(lines[i].clone());
        assert(texts(r@) =~= done.push(lines@[i as int]@));
        assert(texts(lines@).subrange(from as int, i as int + 1) =~= done.push(
            texts(lines@)[i as int],
        ));
        i += 1;
    }
    r
}

/// Appends `more` to `lines`.
fn append_lines(lines: &mut Vec<String>, more: &Vec<String>, from: usize)
    requires
        from <= more.len(),
    ensures
        texts(final(lines)@) == texts(old(lines)@) + texts(more@).skip(from as int),
{
    let ghost start = texts(lines@);
    let mut i: usize = from;
    assert(texts(lines@) =~= start + texts(more@).subrange(from as int, from as int));
    while i < more.len()
        invariant
            from <= i <= more.len(),
            texts(lines@) == start + texts(more@).subrange(from as int, i as int),
        decreases more.len() - i,
    {
        let ghost done = texts(lines@);
        lines.push(more[i].clone());
        assert(texts(lines@) =~= done.push(more@[i as int]@));
        assert(texts(more@).subrange(from as int, i as int + 1) =~= texts(more@).subrange(
            from as int,
            i as int,
        ).push(texts(more@)[i as int]));
        assert(texts(lines@) =~= start + texts(more@).subrange(from as int, i as int + 1));
        i += 1;
    }
    assert(texts(more@).subrange(from as int, i as int) =~= texts(more@).skip(from as int));
}

/// Where the search for a hunk starts.
fn find_start(lines: &Vec<String>, cursor: usize, hunk: &Hunk) -> (r: usize)
    requires
        cursor <= lines.len(),
    ensures
        r == search_start(texts(lines@), cursor as int, hunk@),
        r <= lines.len(),
{
    match &hunk.header {
        None => cursor,
        Some(header) => {
            let want = text::trim(header.as_str());
            let mut i: usize = cursor;
            while i < lines.len()
                invariant
                    cursor <= i <= lines.len(),
                    want@ == trimmed(header@),
                    hunk.header == Some(*header),
                    header_line(texts(lines@), cursor as int, header@) == header_line(
                        texts(lines@),
                        i as int,
                        header@,
                    ),
                decreases lines.len() - i,
            {
                assert(texts(lines@)[i as int] == lines@[i as int]@);
                let line = text::trim(lines[i].as_str());
                if text::eq(line.as_str(), want.as_str()) {
                    return i + 1;
                }
                i += 1;
            }
            cursor
        },
    }
}

/// Applies `hunks` to a file that holds `previous`, which the failure calls `display`.
pub fn apply_hunks(previous: &str, hunks: &Vec<Hunk>, display: &str) -> (r: Result<
    String,
    ToolError,
>)
    ensures
        match updated(previous@, hunk_views(hunks@), display@) {
            Ok(contents) => r is Ok && r->Ok_0@ == contents,
            Err(error) => r is Err && r->Err_0@ == error,
        },
{
    let mut lines = split_lines(previous);
    let mut cursor: usize = 0;
    let ghost views = hunk_views(hunks@);
    let ghost whole = applied(texts(lines@), 0, views);
    let mut i: usize = 0;
    assert(views.skip(0) =~= views);
    while i < hunks.len()
        invariant
            i <= hunks.len(),
            cursor <= lines.len(),
            views == hunk_views(hunks@),
            whole == applied(file_lines(previous@), 0, views),
            whole == applied(texts(lines@), cursor as int, views.skip(i as int)),
        decreases hunks.len() - i,
    {
        let ghost all = texts(lines@);
        let ghost hunk = views.skip(i as int)[0];
        assert(hunk == hunks@[i as int]@);
        assert(views.skip(i as int).drop_first() =~= views.skip(i as int + 1));
        let from: usize = find_start(&lines, cursor, &hunks[i]);
        let old = hunks[i].before();
        match seek(&lines, &old, from, hunks[i].at_eof) {
            None => {
                let line = sample(&old);
                let mut message = text::concat3(
                    display,
                    ": hunk context not found, starting at `",
                    line.as_str(),
                );
                message.append("`");
                return Err(ToolError::custom("no_match", message));
            },
            Some(at) => {
                assert(old.len() == texts(old@).len());
                let matched = copy_lines(&lines, at, at + old.len());
                let new = hunks[i].after(&matched);
                let mut next = copy_lines(&lines, 0, at);
                assert(all.subrange(0, at as int) =~= all.take(at as int));
                append_lines(&mut next, &new, 0);
                assert(texts(new@).skip(0) =~= texts(new@));
                append_lines(&mut next, &lines, at + old.len());
                assert(texts(next@) =~= spliced(all, hunk, at as int));
                assert(next.len() == texts(next@).len());
                assert(new.len() == texts(new@).len());
                cursor = at + new.len();
                lines = next;
            },
        }
        i += 1;
    }
    assert(views.skip(i as int).len() == 0);
    let mut out = text::join(&lines, "\n");
    let v = text::to_chars(previous);
    if out.as_str().unicode_len() > 0 && (v.len() == 0 || v[v.len() - 1] == '\n') {
        out.push('\n');
    }
    Ok(out)
}

// Planning.

/// Applies a multi-file patch in the `*** Begin Patch` envelope.
#[derive(Clone, Copy, Debug, PartialEq, Eq, Structural)]
pub struct ApplyPatch;

impl ApplyPatch {
    /// The tool's id.
    pub fn id(&self) -> (r: ToolId)
        ensures
            r@ == "apply_patch"@,
    {
        ToolId::new("apply_patch")
    }

    /// What the model is told of the tool.
    pub fn description(&self) -> (r: ToolDescription)
        ensures
            r.text@ == APPLY_PATCH_DESCRIPTION@,
    {
        ToolDescription::new(APPLY_PATCH_DESCRIPTION)
    }

    /// Static facts about the tool.
    pub fn capabilities(&self) -> (r: ToolCapabilities)
        ensures
            r == (ToolCapabilities {
                kind: ToolKind::Edit,
                concurrency_safe: false,
                timeout_millis: None,
            }),
    {
        ToolCapabilities::of_kind(ToolKind::Edit)
    }
}

/// What the model is told of the tool.
pub const APPLY_PATCH_DESCRIPTION: &'static str = "Apply a multi-file patch atomically. The patch is wrapped in `*** Begin Patch` and `*** End Patch`, and holds one or more file sections: `*** Add File: <path>` followed by `+` lines, `*** Delete File: <path>`, or `*** Update File: <path>` optionally followed by `*** Move to: <new path>` and then hunks. A hunk opens with `@@` (optionally naming the enclosing function or class) and its lines are prefixed ` ` for context, `-` to remove, `+` to add; end a hunk with `*** End of File` when it matches the end of the file. Give three lines of context around each change. Nothing is written unless every section applies.";

/// What the tool is called with.
#[derive(Debug, PartialEq, Eq)]
pub struct ApplyPatchArgs {
    /// The full patch, from `*** Begin Patch` through `*** End Patch`.
    pub patch: String,
}

/// What one file section did.
#[derive(Clone, Copy, Debug, PartialEq, Eq, Structural)]
pub enum ChangeKind {
    Added,
    Updated,
    Deleted,
}

/// What a patch did to one file.
#[derive(Debug, PartialEq, Eq)]
pub struct FileChange {
    pub path: String,
    pub kind: ChangeKind,
    /// Set when the section carried a `*** Move to:` line.
    pub moved_to: Option<String>,
    pub diff: LineDiff,
}

/// What a [`FileChange`] says.
pub struct FileChangeView {
    pub path: Seq<char>,
    pub kind: ChangeKind,
    pub moved_to: Option<Seq<char>>,
    pub diff: LineDiffView,
}

impl View for FileChange {
    type V = FileChangeView;

    open spec fn view(&self) -> FileChangeView {
        FileChangeView {
            path: self.path@,
            kind: self.kind,
            moved_to: text::opt(self.moved_to),
            diff: self.diff@,
        }
    }
}

/// A section resolved against the workspace and reduced to text to write.
#[derive(Debug, PartialEq, Eq)]
pub struct Step {
    pub change: FileChange,
    pub write: Option<(AbsPath, String)>,
    pub remove: Option<AbsPath>,
}

/// What a [`Step`] says.
pub struct StepView {
    pub change: FileChangeView,
    pub write: Option<(Seq<char>, Seq<char>)>,
    pub remove: Option<Seq<char>>,
}

impl View for Step {
    type V = StepView;

    open spec fn view(&self) -> StepView {
        StepView {
            change: self.change@,
            write: match self.write {
                Some((path, contents)) => Some((path@, contents@)),
                None => None,
            },
            remove: match self.remove {
                Some(path) => Some(path@),
                None => None,
            },
        }
    }
}

/// One thing done to the disk.
#[derive(Debug, PartialEq, Eq)]
pub enum Act {
    /// Take this file away.
    Remove(AbsPath),
    /// Write this to this file, making the directories it lies in.
    Write(AbsPath, String),
}

/// What an [`Act`] says.
pub enum ActView {
    Remove(Seq<char>),
    Write(Seq<char>, Seq<char>),
}

impl View for Act {
    type V = ActView;

    open spec fn view(&self) -> ActView {
        match self {
            Act::Remove(path) => ActView::Remove(path@),
            Act::Write(path, contents) => ActView::Write(path@, contents@),
        }
    }
}

/// What some acts say.
pub open spec fn act_views(acts: Seq<Act>) -> Seq<ActView> {
    acts.map_values(|a: Act| a@)
}

impl StepView {
    /// What the step does to the disk, in order.
    pub open spec fn acts(self) -> Seq<ActView> {
        (match self.remove {
            Some(path) => seq![ActView::Remove(path)],
            None => Seq::empty(),
        }) + (match self.write {
            Some((path, contents)) => seq![ActView::Write(path, contents)],
            None => Seq::empty(),
        })
    }
}

impl Step {
    /// What the step does to the disk, in order, and the change that is reported once it is done.
    pub fn commit(self) -> (r: (Vec<Act>, FileChange))
        ensures
            act_views(r.0@) == self@.acts(),
            r.1@ == self@.change,
    {
        let mut acts: Vec<Act> = Vec::new();
        if let Some(path) = self.remove {
            acts.push(Act::Remove(path));
        }
        if let Some((path, contents)) = self.write {
            acts.push(Act::Write(path, contents));
        }
        assert(act_views(acts@) =~= self@.acts());
        (acts, self.change)
    }
}

impl FileChange {
    /// The failure of an act of this change.
    pub fn write_failed(&self, error: &str) -> (r: ToolError)
        ensures
            r@ == (ToolErrorView::Execution {
                code: "write_failed"@,
                message: self@.path + ": "@ + error@,
            }),
    {
        ToolError::custom("write_failed", text::concat3(self.path.as_str(), ": ", error))
    }
}

/// What reading a file came to.
#[derive(Debug, PartialEq, Eq)]
pub enum ReadOutcome {
    Contents(String),
    NotFound,
    Failed(String),
}

/// What a [`ReadOutcome`] says.
pub enum ReadView {
    Contents(Seq<char>),
    NotFound,
    Failed(Seq<char>),
}

impl View for ReadOutcome {
    type V = ReadView;

    open spec fn view(&self) -> ReadView {
        match self {
            ReadOutcome::Contents(contents) => ReadView::Contents(contents@),
            ReadOutcome::NotFound => ReadView::NotFound,
            ReadOutcome::Failed(error) => ReadView::Failed(error@),
        }
    }
}

/// What was found on disk for one section.
#[derive(Debug, PartialEq, Eq)]
pub struct Observed {
    /// Whether the section's own path exists.
    pub exists: bool,
    /// What reading the section's own path came to.
    pub contents: ReadOutcome,
    /// Whether the path that the section moves to exists.
    pub target_exists: bool,
}

/// What an [`Observed`] says.
pub struct ObservedView {
    pub exists: bool,
    pub contents: ReadView,
    pub target_exists: bool,
}

impl View for Observed {
    type V = ObservedView;

    open spec fn view(&self) -> ObservedView {
        ObservedView {
            exists: self.exists,
            contents: self.contents@,
            target_exists: self.target_exists,
        }
    }
}

/// The contents that were read of the file shown as `display`, or why there are none.
pub open spec fn contents_of(outcome: ReadView, display: Seq<char>) -> Result<
    Seq<char>,
    ToolErrorView,
> {
    match outcome {
        ReadView::Contents(contents) => Ok(contents),
        ReadView::NotFound => Err(
            ToolErrorView::Execution {
                code: "file_not_found"@,
                message: display + ": no such file"@,
            },
        ),
        ReadView::Failed(error) => Err(
            ToolErrorView::Execution { code: "read_failed"@, message: display + ": "@ + error },
        ),
    }
}

/// The contents that were read of the file shown as `display`, or why there are none.
fn read(outcome: &ReadOutcome, display: &str) -> (r: Result<String, ToolError>)
    ensures
        match contents_of(outcome@, display@) {
            Ok(contents) => r is Ok && r->Ok_0@ == contents,
            Err(error) => r is Err && r->Err_0@ == error,
        },
{
    match outcome {
        ReadOutcome::Contents(contents) => Ok(contents.clone()),
        ReadOutcome::NotFound => Err(
            ToolError::custom("file_not_found", text::concat(display, ": no such file")),
        ),
        ReadOutcome::Failed(error) => Err(
            ToolError::custom("read_failed", text::concat3(display, ": ", error.as_str())),
        ),
    }
}

/// How the change from `before` to `after` reads.
pub open spec fn diff_of(before: Seq<char>, after: Seq<char>) -> LineDiffView {
    rendered_diff(clusters(before, after, DIFF_CONTEXT as nat))
}

/// What adding a file at `path` comes to.
pub open spec fn planned_add(
    root: Seq<char>,
    path: Seq<char>,
    contents: Seq<char>,
    seen: ObservedView,
) -> Result<StepView, ToolErrorView> {
    match resolution(root, path) {
        Err(error) => Err(error),
        Ok(target) => if seen.exists {
            Err(bad_patch_view(displayed(root, target) + ": already exists"@))
        } else {
            Ok(
                StepView {
                    change: FileChangeView {
                        path: displayed(root, target),
                        kind: ChangeKind::Added,
                        moved_to: None,
                        diff: diff_of(""@, contents),
                    },
                    write: Some((target, contents)),
                    remove: None,
                },
            )
        },
    }
}

/// What deleting the file at `path` comes to.
pub open spec fn planned_delete(root: Seq<char>, path: Seq<char>, seen: ObservedView) -> Result<
    StepView,
    ToolErrorView,
> {
    match resolution(root, path) {
        Err(error) => Err(error),
        Ok(target) => match contents_of(seen.contents, displayed(root, target)) {
            Err(error) => Err(error),
            Ok(previous) => Ok(
                StepView {
                    change: FileChangeView {
                        path: displayed(root, target),
                        kind: ChangeKind::Deleted,
                        moved_to: None,
                        diff: diff_of(previous, ""@),
                    },
                    write: None,
                    remove: Some(target),
                },
            ),
        },
    }
}

/// What rewriting the file `source`, which held `previous`, to hold `contents` comes to.
pub open spec fn planned_rewrite(
    root: Seq<char>,
    source: Seq<char>,
    previous: Seq<char>,
    contents: Seq<char>,
    move_to: Option<Seq<char>>,
    seen: ObservedView,
) -> Result<StepView, ToolErrorView> {
    let change = FileChangeView {
        path: displayed(root, source),
        kind: ChangeKind::Updated,
        moved_to: None,
        diff: diff_of(previous, contents),
    };
    match move_to {
        None => Ok(StepView { change, write: Some((source, contents)), remove: None }),
        Some(destination) => match resolution(root, destination) {
            Err(error) => Err(error),
            Ok(target) => if target != source && seen.target_exists {
                Err(bad_patch_view(displayed(root, target) + ": already exists"@))
            } else {
                Ok(
                    StepView {
                        change: FileChangeView {
                            moved_to: Some(displayed(root, target)),
                            ..change
                        },
                        write: Some((target, contents)),
                        remove: if target != source {
                            Some(source)
                        } else {
                            None
                        },
                    },
                )
            },
        },
    }
}

/// What updating the file at `path` comes to.
pub open spec fn planned_update(
    root: Seq<char>,
    path: Seq<char>,
    move_to: Option<Seq<char>>,
    hunks: Seq<HunkView>,
    seen: ObservedView,
) -> Result<StepView, ToolErrorView> {
    match resolution(root, path) {
        Err(error) => Err(error),
        Ok(source) => match contents_of(seen.contents, displayed(root, source)) {
            Err(error) => Err(error),
            Ok(previous) => match updated(previous, hunks, displayed(root, source)) {
                Err(error) => Err(error),
                Ok(contents) => planned_rewrite(root, source, previous, contents, move_to, seen),
            },
        },
    }
}

/// What one section comes to, given what was found on disk.
#[verifier::opaque]
pub open spec fn planned(root: Seq<char>, section: SectionView, seen: ObservedView) -> Result<
    StepView,
    ToolErrorView,
> {
    match section {
        SectionView::Add { path, contents } => planned_add(root, path, contents, seen),
        SectionView::Delete { path } => planned_delete(root, path, seen),
        SectionView::Update { path, move_to, hunks } => planned_update(
            root,
            path,
            move_to,
            hunks,
            seen,
        ),
    }
}

/// Resolves one section and computes what it writes, given what was found on disk.
pub fn plan(root: &AbsPath, section: &Section, seen: &Observed) -> (r: Result<Step, ToolError>)
    ensures
        match planned(root@, section@, seen@) {
            Ok(step) => r is Ok && r->Ok_0@ == step,
            Err(error) => r is Err && r->Err_0@ == error,
        },
{
    proof {
        reveal(planned);
    }
    match section {
        Section::Add { path, contents } => {
            let target = match support::resolve(root, path.as_str()) {
                Ok(target) => target,
                Err(error) => {
                    return Err(error);
                },
            };
            let display = support::display(root, &target);
            if seen.exists {
                return Err(bad_patch(text::concat(display.as_str(), ": already exists")));
            }
            let diff = support::line_diff("", contents.as_str());
            Ok(
                Step {
                    change: FileChange {
                        path: display,
                        kind: ChangeKind::Added,
                        moved_to: None,
                        diff,
                    },
                    write: Some((target, contents.clone())),
                    remove: None,
                },
            )
        },
        Section::Delete { path } => {
            let target = match support::resolve(root, path.as_str()) {
                Ok(target) => target,
                Err(error) => {
                    return Err(error);
                },
            };
            let display = support::display(root, &target);
            let previous = match read(&seen.contents, display.as_str()) {
                Ok(previous) => previous,
                Err(error) => {
                    return Err(error);
                },
            };
            let diff = support::line_diff(previous.as_str(), "");
            Ok(
                Step {
                    change: FileChange {
                        path: display,
                        kind: ChangeKind::Deleted,
                        moved_to: None,
                        diff,
                    },
                    write: None,
                    remove: Some(target),
                },
            )
        },
        Section::Update { path, move_to, hunks } => {
            let source = match support::resolve(root, path.as_str()) {
                Ok(source) => source,
                Err(error) => {
                    return Err(error);
                },
            };
            let display = support::display(root, &source);
            let previous = match read(&seen.contents, display.as_str()) {
                Ok(previous) => previous,
                Err(error) => {
                    return Err(error);
                },
            };
            let contents = match apply_hunks(previous.as_str(), hunks, display.as_str()) {
                Ok(contents) => contents,
                Err(error) => {
                    return Err(error);
                },
            };
            let mut target = source.clone();
            let mut moved_to: Option<String> = None;
            if let Some(destination) = move_to {
                match support::resolve(root, destination.as_str()) {
                    Err(error) => {
                        return Err(error);
                    },
                    Ok(place) => {
                        let shown = support::display(root, &place);
                        if !place.same(&source) && seen.target_exists {
                            return Err(
                                bad_patch(text::concat(shown.as_str(), ": already exists")),
                            );
                        }
                        target = place;
                        moved_to = Some(shown);
                    },
                }
            }
            let remove = if target.same(&source) {
                None
            } else {
                Some(source)
            };
            let diff = support::line_diff(previous.as_str(), contents.as_str());
            Ok(
                Step {
                    change: FileChange { path: display, kind: ChangeKind::Updated, moved_to, diff },
                    write: Some((target, contents)),
                    remove,
                },
            )
        },
    }
}

/// What a list of steps says.
pub open spec fn step_views(steps: Seq<Step>) -> Seq<StepView> {
    steps.map_values(|s: Step| s@)
}

/// What was found on disk for each section.
pub open spec fn observed_views(seen: Seq<Observed>) -> Seq<ObservedView> {
    seen.map_values(|o: Observed| o@)
}

/// The steps of the first `n` sections, or the failure of the first that cannot apply.
pub open spec fn planned_all(
    root: Seq<char>,
    sections: Seq<SectionView>,
    seen: Seq<ObservedView>,
    n: nat,
) -> Result<Seq<StepView>, ToolErrorView>
    decreases n,
{
    if n == 0 {
        Ok(Seq::empty())
    } else {
        match planned_all(root, sections, seen, (n - 1) as nat) {
            Err(error) => Err(error),
            Ok(steps) => match planned(root, sections[n - 1], seen[n - 1]) {
                Err(error) => Err(error),
                Ok(step) => Ok(steps.push(step)),
            },
        }
    }
}

/// Resolves and computes every section before anything is written, so a section that cannot
/// apply refuses the whole patch rather than leaving earlier sections written.
pub fn plan_all(root: &AbsPath, sections: &Vec<Section>, seen: &Vec<Observed>) -> (r: Result<
    Vec<Step>,
    ToolError,
>)
    requires
        seen.len() == sections.len(),
    ensures
        match planned_all(
            root@,
            section_views(sections@),
            observed_views(seen@),
            sections.len() as nat,
        ) {
            Ok(steps) => r is Ok && step_views(r->Ok_0@) == steps,
            Err(error) => r is Err && r->Err_0@ == error,
        },
{
    let ghost all = section_views(sections@);
    let ghost disk = observed_views(seen@);
    let mut steps: Vec<Step> = Vec::new();
    let mut i: usize = 0;
    assert(step_views(steps@) =~= Seq::empty());
    while i < sections.len()
        invariant
            i <= sections.len(),
            seen.len() == sections.len(),
            all == section_views(sections@),
            disk == observed_views(seen@),
            planned_all(root@, all, disk, i as nat) == Ok::<_, ToolErrorView>(
                step_views(steps@),
            ),
        decreases sections.len() - i,
    {
        let ghost done = step_views(steps@);
        assert(all[i as int] == sections@[i as int]@);
        assert(disk[i as int] == seen@[i as int]@);
        match plan(root, &sections[i], &seen[i]) {
            Ok(step) => {
                let ghost view = step@;
                steps.push(step);
                assert(step_views(steps@) =~= done.push(view));
            },
            Err(error) => {
                proof {
                    lemma_first_failure(root@, all, disk, i as nat + 1, sections.len() as nat);
                }
                return Err(error);
            },
        }
        i += 1;
    }
    Ok(steps)
}

/// Once a section has failed, the patch has failed with it.
proof fn lemma_first_failure(
    root: Seq<char>,
    sections: Seq<SectionView>,
    seen: Seq<ObservedView>,
    k: nat,
    n: nat,
)
    requires
        k <= n,
        planned_all(root, sections, seen, k) is Err,
    ensures
        planned_all(root, sections, seen, n) == planned_all(root, sections, seen, k),
    decreases n,
{
    if k < n {
        lemma_first_failure(root, sections, seen, k, (n - 1) as nat);
    }
}

/// What the tool answers with.
#[derive(Debug, PartialEq, Eq)]
pub struct ApplyPatchOutput {
    pub changes: Vec<FileChange>,
}

/// What a list of changes says.
pub open spec fn file_change_views(changes: Seq<FileChange>) -> Seq<FileChangeView> {
    changes.map_values(|c: FileChange| c@)
}

/// The word for what was done to a file.
pub open spec fn verb_of(kind: ChangeKind) -> Seq<char> {
    match kind {
        ChangeKind::Added => "added"@,
        ChangeKind::Updated => "updated"@,
        ChangeKind::Deleted => "deleted"@,
    }
}

/// The line that reports one change.
pub open spec fn change_line(change: FileChangeView) -> Seq<char> {
    let named = verb_of(change.kind) + " "@ + change.path;
    let moved = match change.moved_to {
        Some(target) => named + " -> "@ + target,
        None => named,
    };
    moved + " (+"@ + text::decimal_of(change.diff.added) + " -"@ + text::decimal_of(
        change.diff.removed,
    ) + ")"@
}

/// The report of a patch.
pub open spec fn patch_report(changes: Seq<FileChangeView>) -> Seq<char> {
    if changes.len() == 0 {
        "patch applied (no files changed)"@
    } else {
        text::joined(changes.map_values(|c: FileChangeView| change_line(c)), "\n"@)
    }
}

impl FileChange {
    /// The line that reports this change.
    fn line(&self) -> (r: String)
        ensures
            r@ == change_line(self@),
    {
        let verb = match self.kind {
            ChangeKind::Added => "added",
            ChangeKind::Updated => "updated",
            ChangeKind::Deleted => "deleted",
        };
        let mut r = text::concat3(verb, " ", self.path.as_str());
        if let Some(target) = &self.moved_to {
            r.append(" -> ");
            r.append(target.as_str());
        }
        r.append(" (+");
        let added = text::decimal(self.diff.added as u64);
        r.append(added.as_str());
        r.append(" -");
        let removed = text::decimal(self.diff.removed as u64);
        r.append(removed.as_str());
        r.append(")");
        r
    }
}

impl ApplyPatchOutput {
    /// What the model sees of the outcome.
    pub fn render(&self) -> (r: Vec<ContentBlock>)
        ensures
            block_views(r@) == seq![
                BlockView::Text { text: patch_report(file_change_views(self.changes@)) },
            ],
    {
        if self.changes.len() == 0 {
            return one_text("patch applied (no files changed)");
        }
        let mut lines: Vec<String> = Vec::new();
        let mut i: usize = 0;
        while i < self.changes.len()
            invariant
                i <= self.changes.len(),
                lines.len() == i,
                forall|k: int| 0 <= k < i ==> (#[trigger] lines@[k])@ == change_line(self.changes@[k]@),
            decreases self.changes.len() - i,
        {
            lines.push(self.changes[i].line());
            i += 1;
        }
        assert(texts(lines@) =~= file_change_views(self.changes@).map_values(
            |c: FileChangeView| change_line(c),
        ));
        let report = text::join(&lines, "\n");
        one_text(report.as_str())
    }
}

// Laws.

/// Nothing is written unless every section applies: the steps that are handed out are one
/// for each section, each what that section alone comes to.
pub proof fn a_patch_applies_whole_or_not_at_all(
    root: Seq<char>,
    sections: Seq<SectionView>,
    seen: Seq<ObservedView>,
)
    requires
        seen.len() == sections.len(),
    ensures
        planned_all(root, sections, seen, sections.len()) is Ok <==> (forall|k: int|
            0 <= k < sections.len() ==> planned(root, #[trigger] sections[k], seen[k]) is Ok),
        planned_all(root, sections, seen, sections.len()) matches Ok(steps) ==> steps.len()
            == sections.len() && forall|k: int|
            0 <= k < sections.len() ==> planned(root, #[trigger] sections[k], seen[k]) == Ok::<
                _,
                ToolErrorView,
            >(steps[k]),
{
    lemma_planned_prefix(root, sections, seen, sections.len());
}

proof fn lemma_planned_prefix(
    root: Seq<char>,
    sections: Seq<SectionView>,
    seen: Seq<ObservedView>,
    n: nat,
)
    requires
        n <= sections.len(),
    ensures
        planned_all(root, sections, seen, n) is Ok <==> (forall|k: int|
            0 <= k < n ==> planned(root, #[trigger] sections[k], seen[k]) is Ok),
        planned_all(root, sections, seen, n) matches Ok(steps) ==> steps.len() == n && forall|
            k: int,
        |
            0 <= k < n ==> planned(root, #[trigger] sections[k], seen[k]) == Ok::<
                _,
                ToolErrorView,
            >(steps[k]),
    decreases n,
{
    if n > 0 {
        lemma_planned_prefix(root, sections, seen, (n - 1) as nat);
        assert(planned(root, sections[n - 1], seen[n - 1]) is Ok || planned_all(
            root,
            sections,
            seen,
            n,
        ) is Err);
    }
}

/// A patch writes and removes only inside the workspace.
pub proof fn every_change_stays_inside(root: Seq<char>, section: SectionView, seen: ObservedView)
    ensures
        planned(root, section, seen) matches Ok(step) ==> {
            &&& step.write matches Some((path, _)) ==> contained(path, root)
            &&& step.remove matches Some(path) ==> contained(path, root)
        },
{
    reveal(planned);
}

/// A first match is a match, none stands before it, and none is passed over.
pub(crate) proof fn lemma_first_match(
    pass: Pass,
    lines: Seq<Seq<char>>,
    pattern: Seq<Seq<char>>,
    from: int,
)
    requires
        from >= 0,
    ensures
        match first_match(pass, lines, pattern, from) {
            Some(at) => from <= at && matches_at(pass, lines, pattern, at) && (forall|j: int|
                from <= j < at ==> !matches_at(pass, lines, pattern, j)),
            None => forall|j: int| from <= j ==> !matches_at(pass, lines, pattern, j),
        },
    decreases lines.len() - from,
{
    if from + pattern.len() > lines.len() {
    } else if matches_at(pass, lines, pattern, from) {
    } else if from >= lines.len() {
    } else {
        lemma_first_match(pass, lines, pattern, from + 1);
    }
}

/// An exact match wins over a loose one: where the hunk's lines stand in the file letter
/// for letter, the hunk lands at the first such place, whatever matches loosely before it.
pub proof fn exact_match_wins(
    lines: Seq<Seq<char>>,
    pattern: Seq<Seq<char>>,
    start: int,
    place: int,
)
    requires
        pattern.len() > 0,
        0 <= start <= place,
        matches_at(Pass::Exact, lines, pattern, place),
    ensures
        sought(lines, pattern, start, false) matches Some(at) && start <= at <= place
            && matches_at(Pass::Exact, lines, pattern, at) && forall|j: int|
            start <= j < at ==> !matches_at(Pass::Exact, lines, pattern, j),
{
    lemma_first_match(Pass::Exact, lines, pattern, start);
}

/// A hunk lands only where its lines stand in the file, white space around them aside.
pub proof fn landing_matches(
    lines: Seq<Seq<char>>,
    pattern: Seq<Seq<char>>,
    start: int,
    at_eof: bool,
)
    requires
        start >= 0,
    ensures
        sought(lines, pattern, start, at_eof) matches Some(at) ==> matches_at(
            Pass::Trim,
            lines,
            pattern,
            at,
        ),
{
    lemma_passes_loosen(lines, pattern, start);
    lemma_passes_loosen(lines, pattern, end_or(lines, pattern, start));
}

/// A hunk never lands before the place its search starts at, so hunks land in order.
pub proof fn hunks_land_in_order(
    lines: Seq<Seq<char>>,
    pattern: Seq<Seq<char>>,
    start: int,
    at_eof: bool,
)
    requires
        0 <= start <= lines.len(),
    ensures
        sought(lines, pattern, start, at_eof) matches Some(at) ==> start <= at && at
            + pattern.len() <= lines.len(),
{
    lemma_passes_loosen(lines, pattern, start);
    lemma_passes_loosen(lines, pattern, end_or(lines, pattern, start));
}

/// A hunk with the end-of-file marker anchors at the end of the file: it lands there where its
/// lines stand there, and one that only adds lines appends them.
pub proof fn the_marker_anchors_at_the_end(
    lines: Seq<Seq<char>>,
    pattern: Seq<Seq<char>>,
    start: int,
)
    requires
        0 <= start <= lines.len() - pattern.len(),
        matches_at(Pass::Trim, lines, pattern, lines.len() - pattern.len()),
    ensures
        sought(lines, pattern, start, true) == Some(lines.len() - pattern.len()),
{
    let end = lines.len() - pattern.len();
    lemma_first_match(Pass::Exact, lines, pattern, end);
    lemma_first_match(Pass::TrimEnd, lines, pattern, end);
    lemma_first_match(Pass::Trim, lines, pattern, end);
}

/// What a strict pass finds, the loosest finds equal too.
proof fn lemma_passes_loosen(lines: Seq<Seq<char>>, pattern: Seq<Seq<char>>, from: int)
    requires
        from >= 0,
    ensures
        best_match(lines, pattern, from) matches Some(at) ==> from <= at && matches_at(
            Pass::Trim,
            lines,
            pattern,
            at,
        ),
{
    lemma_first_match(Pass::Exact, lines, pattern, from);
    lemma_first_match(Pass::TrimEnd, lines, pattern, from);
    lemma_first_match(Pass::Trim, lines, pattern, from);
    if let Some(at) = best_match(lines, pattern, from) {
        assert forall|k: int| 0 <= k < pattern.len() implies normalized(Pass::Trim, lines[at + k])
            == normalized(Pass::Trim, #[trigger] pattern[k]) by {
            if matches_at(Pass::TrimEnd, lines, pattern, at) {
                assert(normalized(Pass::TrimEnd, lines[at + k]) == normalized(
                    Pass::TrimEnd,
                    pattern[k],
                ));
                text::lemma_trim_by_end(lines[at + k]);
                text::lemma_trim_by_end(pattern[k]);
            } else if matches_at(Pass::Exact, lines, pattern, at) {
                assert(normalized(Pass::Exact, lines[at + k]) == normalized(
                    Pass::Exact,
                    pattern[k],
                ));
            }
        }
    }
}

/// Whether `line` is an added line of one of `ops`.
pub open spec fn adds(ops: Seq<OpView>, line: Seq<char>) -> bool {
    exists|k: int| 0 <= k < ops.len() && ops[k] == OpView::Add(line)
}

/// Whether `line` is an added line of one of `hunks`.
pub open spec fn hunks_add(hunks: Seq<HunkView>, line: Seq<char>) -> bool {
    exists|h: int| 0 <= h < hunks.len() && adds(#[trigger] hunks[h].ops, line)
}

/// A hunk that matched as many lines as it expects leaves behind only lines it matched and
/// lines it adds.
proof fn lemma_after_lines(ops: Seq<OpView>, matched: Seq<Seq<char>>)
    requires
        before_of(ops).len() <= matched.len(),
    ensures
        forall|k: int|
            0 <= k < after_of(ops, matched).len() ==> matched.contains(
                #[trigger] after_of(ops, matched)[k],
            ) || adds(ops, after_of(ops, matched)[k]),
    decreases ops.len(),
{
    if ops.len() > 0 {
        let init = ops.drop_last();
        lemma_after_lines(init, matched);
        let rest = after_of(init, matched);
        assert forall|k: int| 0 <= k < after_of(ops, matched).len() implies matched.contains(
            #[trigger] after_of(ops, matched)[k],
        ) || adds(ops, after_of(ops, matched)[k]) by {
            let line = after_of(ops, matched)[k];
            if k < rest.len() {
                assert(line == rest[k]);
                if adds(init, line) {
                    let j = choose|j: int| 0 <= j < init.len() && init[j] == OpView::Add(line);
                    assert(ops[j] == OpView::Add(line));
                }
            } else {
                match ops.last() {
                    OpView::Context(own) => {
                        let consumed = before_of(init).len() as int;
                        assert(line == matched[consumed]);
                    },
                    OpView::Remove(_) => {},
                    OpView::Add(own) => {
                        assert(ops[ops.len() - 1] == OpView::Add(line));
                    },
                }
            }
        }
    }
}

/// Only `+` lines come from the patch: every line of the updated file is a line the file
/// had before, as the file had it, or an added line of a hunk.
pub proof fn only_plus_lines_are_new(
    lines: Seq<Seq<char>>,
    cursor: int,
    hunks: Seq<HunkView>,
    line: Seq<char>,
)
    requires
        0 <= cursor <= lines.len(),
        applied(lines, cursor, hunks) is Ok,
        applied(lines, cursor, hunks)->Ok_0.contains(line),
    ensures
        lines.contains(line) || hunks_add(hunks, line),
    decreases hunks.len(),
{
    if hunks.len() > 0 {
        let hunk = hunks[0];
        let old = before_of(hunk.ops);
        let at = landing(lines, cursor, hunk)->0;
        lemma_search_start(lines, cursor, hunk);
        landing_matches(lines, old, search_start(lines, cursor, hunk), hunk.at_eof);
        let new = replacement(lines, hunk, at);
        let matched = lines.subrange(at, at + old.len());
        lemma_after_lines(hunk.ops, matched);
        only_plus_lines_are_new(
            spliced(lines, hunk, at),
            at + new.len(),
            hunks.drop_first(),
            line,
        );
        if hunks_add(hunks.drop_first(), line) {
            let h = choose|h: int|
                0 <= h < hunks.drop_first().len() && adds(
                    #[trigger] hunks.drop_first()[h].ops,
                    line,
                );
            assert(hunks[h + 1].ops == hunks.drop_first()[h].ops);
        } else {
            let k = choose|k: int|
                0 <= k < spliced(lines, hunk, at).len() && spliced(lines, hunk, at)[k] == line;
            if k < at {
                assert(lines[k] == line);
            } else if k < at + new.len() {
                assert(new[k - at] == line);
                if matched.contains(line) {
                    let j = choose|j: int| 0 <= j < matched.len() && matched[j] == line;
                    assert(lines[at + j] == line);
                } else {
                    assert(adds(hunks[0].ops, line));
                }
            } else {
                assert(lines[k - new.len() + old.len()] == line);
            }
        }
    }
}

/// A search starts inside the file.
proof fn lemma_search_start(lines: Seq<Seq<char>>, cursor: int, hunk: HunkView)
    requires
        0 <= cursor <= lines.len(),
    ensures
        cursor <= search_start(lines, cursor, hunk) <= lines.len(),
{
    if let Some(header) = hunk.header {
        lemma_header_line(lines, cursor, header);
    }
}

proof fn lemma_header_line(lines: Seq<Seq<char>>, from: int, header: Seq<char>)
    requires
        0 <= from,
    ensures
        header_line(lines, from, header) matches Some(at) ==> from <= at < lines.len() && trimmed(
            lines[at],
        ) == trimmed(header),
    decreases lines.len() - from,
{
    if from < lines.len() && trimmed(lines[from]) != trimmed(header) {
        lemma_header_line(lines, from + 1, header);
    }
}

/// A file that ended with a line feed still does, as long as anything is left of it.
pub proof fn final_newline_is_kept(previous: Seq<char>, lines: Seq<Seq<char>>)
    requires
        previous.len() > 0,
        previous.last() == '\n',
        text::joined(lines, "\n"@).len() > 0,
    ensures
        rejoined(previous, lines).last() == '\n',
{
}

/// A file that did not end with a line feed gets none appended.
pub proof fn missing_newline_is_kept(previous: Seq<char>, lines: Seq<Seq<char>>)
    requires
        previous.len() > 0,
        previous.last() != '\n',
    ensures
        rejoined(previous, lines) == text::joined(lines, "\n"@),
{
}

/// How many of some lines of a hunk stand in the file before it is applied.
pub open spec fn lines_before(ops: Seq<OpView>) -> nat {
    ops.filter(|op: OpView| !(op is Add)).len()
}

/// How many of some lines of a hunk stand in the file once it is applied.
pub open spec fn lines_after(ops: Seq<OpView>) -> nat {
    ops.filter(|op: OpView| !(op is Remove)).len()
}

/// What one more line of a hunk adds to the counts.
proof fn lemma_counted(ops: Seq<OpView>)
    requires
        ops.len() > 0,
    ensures
        lines_before(ops) == lines_before(ops.drop_last()) + (if ops.last() is Add {
            0int
        } else {
            1
        }),
        lines_after(ops) == lines_after(ops.drop_last()) + (if ops.last() is Remove {
            0int
        } else {
            1
        }),
{
    reveal(Seq::filter);
}

/// What a hunk expects and leaves behind, line by line.
proof fn lemma_hunk_lines(ops: Seq<OpView>, matched: Seq<Seq<char>>)
    requires
        matched.len() >= before_of(ops).len(),
    ensures
        before_of(ops).len() == lines_before(ops),
        after_of(ops, matched).len() == lines_after(ops),
        forall|k: int|
            0 <= k < ops.len() ==> match #[trigger] ops[k] {
                OpView::Context(line) => {
                    &&& lines_before(ops.take(k)) < before_of(ops).len()
                    &&& before_of(ops)[lines_before(ops.take(k)) as int] == line
                    &&& lines_after(ops.take(k)) < after_of(ops, matched).len()
                    &&& after_of(ops, matched)[lines_after(ops.take(k)) as int]
                        == matched[lines_before(ops.take(k)) as int]
                },
                OpView::Remove(line) => {
                    &&& lines_before(ops.take(k)) < before_of(ops).len()
                    &&& before_of(ops)[lines_before(ops.take(k)) as int] == line
                },
                OpView::Add(line) => {
                    &&& lines_after(ops.take(k)) < after_of(ops, matched).len()
                    &&& after_of(ops, matched)[lines_after(ops.take(k)) as int] == line
                },
            },
    decreases ops.len(),
{
    if ops.len() == 0 {
        reveal(Seq::filter);
    } else {
        let init = ops.drop_last();
        lemma_hunk_lines(init, matched);
        lemma_counted(ops);
        assert forall|k: int| 0 <= k < ops.len() implies match #[trigger] ops[k] {
            OpView::Context(line) => {
                &&& lines_before(ops.take(k)) < before_of(ops).len()
                &&& before_of(ops)[lines_before(ops.take(k)) as int] == line
                &&& lines_after(ops.take(k)) < after_of(ops, matched).len()
                &&& after_of(ops, matched)[lines_after(ops.take(k)) as int]
                    == matched[lines_before(ops.take(k)) as int]
            },
            OpView::Remove(line) => {
                &&& lines_before(ops.take(k)) < before_of(ops).len()
                &&& before_of(ops)[lines_before(ops.take(k)) as int] == line
            },
            OpView::Add(line) => {
                &&& lines_after(ops.take(k)) < after_of(ops, matched).len()
                &&& after_of(ops, matched)[lines_after(ops.take(k)) as int] == line
            },
        } by {
            if k < init.len() {
                assert(ops[k] == init[k]);
                assert(ops.take(k) =~= init.take(k));
            } else {
                assert(ops.take(k) =~= init);
            }
        }
    }
}

/// One hunk on its own.
proof fn lemma_applied_once(lines: Seq<Seq<char>>, cursor: int, hunk: HunkView)
    ensures
        match landing(lines, cursor, hunk) {
            Some(at) => applied(lines, cursor, seq![hunk]) == Ok::<Seq<Seq<char>>, Seq<Seq<char>>>(
                spliced(lines, hunk, at),
            ),
            None => applied(lines, cursor, seq![hunk]) == Err::<Seq<Seq<char>>, _>(
                before_of(hunk.ops),
            ),
        },
{
    reveal_with_fuel(applied, 2);
    assert(seq![hunk].drop_first() =~= Seq::<HunkView>::empty());
}

/// Whether two lines are alike to a pass.
pub open spec fn alike(pass: Pass, a: Seq<char>, b: Seq<char>) -> bool {
    match pass {
        Pass::Exact => a == b,
        Pass::TrimEnd => trimmed_end(a) == trimmed_end(b),
        Pass::Trim => trimmed(a) == trimmed(b),
    }
}

/// Whether the context and the removed lines of a hunk stand in the file from `at` on, one behind
/// the other.
pub open spec fn stands(pass: Pass, lines: Seq<Seq<char>>, ops: Seq<OpView>, at: int) -> bool {
    &&& 0 <= at
    &&& at + lines_before(ops) <= lines.len()
    &&& forall|k: int|
        0 <= k < ops.len() ==> match #[trigger] ops[k] {
            OpView::Context(line) => alike(pass, lines[at + lines_before(ops.take(k))], line),
            OpView::Remove(line) => alike(pass, lines[at + lines_before(ops.take(k))], line),
            OpView::Add(_) => true,
        }
}

/// Whether a search starts at `start`: behind the first line from the cursor on that is the
/// header, white space around both aside, or at the cursor where there is none.
pub open spec fn starts_at(
    lines: Seq<Seq<char>>,
    cursor: int,
    header: Option<Seq<char>>,
    start: int,
) -> bool {
    match header {
        None => start == cursor,
        Some(header) => {
            ||| start == cursor && forall|i: int|
                cursor <= i < lines.len() ==> trimmed(#[trigger] lines[i]) != trimmed(header)
            ||| cursor < start <= lines.len() && trimmed(lines[start - 1]) == trimmed(header)
                && forall|i: int|
                cursor <= i < start - 1 ==> trimmed(#[trigger] lines[i]) != trimmed(header)
        },
    }
}

/// Whether `at` is the first place from `start` on where a hunk stands to a pass.
pub open spec fn stands_first(
    pass: Pass,
    lines: Seq<Seq<char>>,
    ops: Seq<OpView>,
    start: int,
    at: int,
) -> bool {
    &&& start <= at
    &&& stands(pass, lines, ops, at)
    &&& forall|j: int| start <= j < at ==> !#[trigger] stands(pass, lines, ops, j)
}

/// Whether a hunk stands nowhere from `start` on to a pass.
pub open spec fn stands_nowhere(
    pass: Pass,
    lines: Seq<Seq<char>>,
    ops: Seq<OpView>,
    start: int,
) -> bool {
    forall|j: int| start <= j ==> !#[trigger] stands(pass, lines, ops, j)
}

/// Whether a hunk lands at `at`. One that only adds lines lands where its search starts, or, with
/// the marker, at the end of the file. One with the marker lands at the end where it stands there.
/// Any other lands at the first place where it stands letter for letter, then but for white space
/// at the ends of lines, then but for white space around them.
pub open spec fn lands(
    lines: Seq<Seq<char>>,
    ops: Seq<OpView>,
    start: int,
    at_eof: bool,
    at: int,
) -> bool {
    let end = lines.len() - lines_before(ops);
    if lines_before(ops) == 0 {
        at == if at_eof {
            lines.len() as int
        } else {
            start
        }
    } else if at_eof && start <= end && stands(Pass::Trim, lines, ops, end) {
        at == end
    } else {
        ||| stands_first(Pass::Exact, lines, ops, start, at)
        ||| stands_nowhere(Pass::Exact, lines, ops, start) && stands_first(
            Pass::TrimEnd,
            lines,
            ops,
            start,
            at,
        )
        ||| stands_nowhere(Pass::Exact, lines, ops, start) && stands_nowhere(
            Pass::TrimEnd,
            lines,
            ops,
            start,
        ) && stands_first(Pass::Trim, lines, ops, start, at)
    }
}

/// Whether `new` is the file with one hunk carried out at `at`: every line before that place and
/// every line behind what the hunk expects stays as it was, a context line stays as the file has
/// it, an added line stands between its neighbours as the patch has it, and nothing else is there.
pub open spec fn rewritten(
    lines: Seq<Seq<char>>,
    new: Seq<Seq<char>>,
    ops: Seq<OpView>,
    at: int,
) -> bool {
    &&& 0 <= at
    &&& at + lines_before(ops) <= lines.len()
    &&& new.len() == lines.len() - lines_before(ops) + lines_after(ops)
    &&& new.take(at) == lines.take(at)
    &&& new.skip(at + lines_after(ops)) == lines.skip(at + lines_before(ops))
    &&& forall|k: int|
        0 <= k < ops.len() ==> match #[trigger] ops[k] {
            OpView::Context(_) => new[at + lines_after(ops.take(k))] == lines[at + lines_before(
                ops.take(k),
            )],
            OpView::Remove(_) => true,
            OpView::Add(line) => new[at + lines_after(ops.take(k))] == line,
        }
}

/// A hunk stands where its expected lines match.
proof fn lemma_stands(pass: Pass, lines: Seq<Seq<char>>, ops: Seq<OpView>, at: int)
    ensures
        before_of(ops).len() == lines_before(ops),
        stands(pass, lines, ops, at) <==> matches_at(pass, lines, before_of(ops), at),
    decreases ops.len(),
{
    if ops.len() == 0 {
        reveal(Seq::filter);
    } else {
        let init = ops.drop_last();
        let n = lines_before(init) as int;
        lemma_stands(pass, lines, init, at);
        lemma_counted(ops);
        let old = before_of(ops);
        assert(ops.take(ops.len() - 1) =~= init);
        assert forall|k: int| 0 <= k < init.len() implies #[trigger] init[k] == ops[k]
            && init.take(k) == ops.take(k) by {
            assert(init.take(k) =~= ops.take(k));
        }
        if stands(pass, lines, ops, at) {
            assert forall|k: int| 0 <= k < init.len() implies match #[trigger] init[k] {
                OpView::Context(line) => alike(pass, lines[at + lines_before(init.take(k))], line),
                OpView::Remove(line) => alike(pass, lines[at + lines_before(init.take(k))], line),
                OpView::Add(_) => true,
            } by {
                assert(ops[k] == init[k]);
            }
            assert(ops[ops.len() - 1] == ops.last());
            assert forall|k: int| 0 <= k < old.len() implies normalized(pass, lines[at + k])
                == normalized(pass, #[trigger] old[k]) by {
                if k < n {
                    assert(old[k] == before_of(init)[k]);
                }
            }
        }
        if matches_at(pass, lines, old, at) {
            assert forall|k: int| 0 <= k < n implies normalized(pass, lines[at + k])
                == normalized(pass, #[trigger] before_of(init)[k]) by {
                assert(old[k] == before_of(init)[k]);
            }
            assert(stands(pass, lines, init, at));
            assert forall|k: int| 0 <= k < ops.len() implies match #[trigger] ops[k] {
                OpView::Context(line) => alike(pass, lines[at + lines_before(ops.take(k))], line),
                OpView::Remove(line) => alike(pass, lines[at + lines_before(ops.take(k))], line),
                OpView::Add(_) => true,
            } by {
                if k < init.len() {
                    assert(init[k] == ops[k]);
                } else if !(ops[k] is Add) {
                    assert(normalized(pass, lines[at + n]) == normalized(pass, old[n]));
                }
            }
        }
    }
}

/// The first match is the first place where a hunk stands.
proof fn lemma_stands_first(pass: Pass, lines: Seq<Seq<char>>, ops: Seq<OpView>, start: int)
    requires
        0 <= start,
    ensures
        match first_match(pass, lines, before_of(ops), start) {
            Some(at) => stands_first(pass, lines, ops, start, at),
            None => stands_nowhere(pass, lines, ops, start),
        },
{
    lemma_first_match(pass, lines, before_of(ops), start);
    assert forall|j: int| start <= j implies #[trigger] stands(pass, lines, ops, j) == matches_at(
        pass,
        lines,
        before_of(ops),
        j,
    ) by {
        lemma_stands(pass, lines, ops, j);
    }
}

/// What the search for a hunk finds.
proof fn lemma_lands(lines: Seq<Seq<char>>, ops: Seq<OpView>, start: int, at_eof: bool)
    requires
        0 <= start <= lines.len(),
    ensures
        match sought(lines, before_of(ops), start, at_eof) {
            Some(at) => lands(lines, ops, start, at_eof, at) && start <= at && at + lines_before(
                ops,
            ) <= lines.len(),
            None => lines_before(ops) > 0 && stands_nowhere(Pass::Trim, lines, ops, start),
        },
{
    let old = before_of(ops);
    lemma_stands(Pass::Trim, lines, ops, start);
    lemma_stands_first(Pass::Exact, lines, ops, start);
    lemma_stands_first(Pass::TrimEnd, lines, ops, start);
    lemma_stands_first(Pass::Trim, lines, ops, start);
    hunks_land_in_order(lines, old, start, at_eof);
    let end = lines.len() - lines_before(ops);
    lemma_stands(Pass::Trim, lines, ops, end);
    if old.len() > 0 && at_eof {
        if start <= end && stands(Pass::Trim, lines, ops, end) {
            the_marker_anchors_at_the_end(lines, old, start);
        } else if start <= end {
            let from = end_or(lines, old, start);
            assert(from == end);
            lemma_passes_loosen(lines, old, end);
        }
    }
}

/// A search starts where it is to start.
proof fn lemma_starts_at(lines: Seq<Seq<char>>, cursor: int, hunk: HunkView)
    requires
        0 <= cursor <= lines.len(),
    ensures
        starts_at(lines, cursor, hunk.header, search_start(lines, cursor, hunk)),
        cursor <= search_start(lines, cursor, hunk) <= lines.len(),
{
    lemma_search_start(lines, cursor, hunk);
    if let Some(header) = hunk.header {
        lemma_header_line(lines, cursor, header);
        lemma_first_header(lines, cursor, header);
    }
}

/// No header stands before the one that is found.
proof fn lemma_first_header(lines: Seq<Seq<char>>, from: int, header: Seq<char>)
    requires
        0 <= from,
    ensures
        match header_line(lines, from, header) {
            Some(at) => forall|i: int|
                from <= i < at ==> trimmed(#[trigger] lines[i]) != trimmed(header),
            None => forall|i: int|
                from <= i < lines.len() ==> trimmed(#[trigger] lines[i]) != trimmed(header),
        },
    decreases lines.len() - from,
{
    if from < lines.len() && trimmed(lines[from]) != trimmed(header) {
        lemma_first_header(lines, from + 1, header);
    }
}

/// What a hunk on its own comes to.
pub open spec fn carried_out(
    lines: Seq<Seq<char>>,
    cursor: int,
    hunk: HunkView,
    start: int,
    at: int,
    new: Seq<Seq<char>>,
) -> bool {
    &&& starts_at(lines, cursor, hunk.header, start)
    &&& lands(lines, hunk.ops, start, hunk.at_eof, at)
    &&& cursor <= start <= at
    &&& rewritten(lines, new, hunk.ops, at)
}

/// A hunk rewrites only the lines it names, at the place where they stand: its search starts at
/// the cursor or behind its header, it lands at the best place from there on, and all other lines
/// of the file stay as they are. It fails only where its lines stand nowhere.
pub proof fn a_hunk_rewrites_only_its_lines(lines: Seq<Seq<char>>, cursor: int, hunk: HunkView)
    requires
        0 <= cursor <= lines.len(),
    ensures
        match applied(lines, cursor, seq![hunk]) {
            Ok(new) => exists|start: int, at: int|
                #[trigger] carried_out(lines, cursor, hunk, start, at, new),
            Err(_) => lines_before(hunk.ops) > 0 && exists|start: int| #[trigger]
                starts_at(lines, cursor, hunk.header, start) && stands_nowhere(
                    Pass::Trim,
                    lines,
                    hunk.ops,
                    start,
                ),
        },
{
    lemma_carried_out(lines, cursor, hunk);
    lemma_applied_once(lines, cursor, hunk);
    match landing(lines, cursor, hunk) {
        Some(at) => {
            let new = spliced(lines, hunk, at);
            assert(applied(lines, cursor, seq![hunk])->Ok_0 == new);
            assert(carried_out(
                lines,
                cursor,
                hunk,
                search_start(lines, cursor, hunk),
                at,
                applied(lines, cursor, seq![hunk])->Ok_0,
            ));
        },
        None => {},
    }
}

proof fn lemma_carried_out(lines: Seq<Seq<char>>, cursor: int, hunk: HunkView)
    requires
        0 <= cursor <= lines.len(),
    ensures
        starts_at(lines, cursor, hunk.header, search_start(lines, cursor, hunk)),
        match landing(lines, cursor, hunk) {
            Some(at) => {
                &&& carried_out(
                    lines,
                    cursor,
                    hunk,
                    search_start(lines, cursor, hunk),
                    at,
                    spliced(lines, hunk, at),
                )
                &&& replacement(lines, hunk, at).len() == lines_after(hunk.ops)
            },
            None => lines_before(hunk.ops) > 0 && stands_nowhere(
                Pass::Trim,
                lines,
                hunk.ops,
                search_start(lines, cursor, hunk),
            ),
        },
{
    let ops = hunk.ops;
    let old = before_of(ops);
    let start = search_start(lines, cursor, hunk);
    lemma_starts_at(lines, cursor, hunk);
    lemma_lands(lines, ops, start, hunk.at_eof);
    if let Some(at) = landing(lines, cursor, hunk) {
        lemma_stands(Pass::Trim, lines, ops, at);
        let matched = lines.subrange(at, at + old.len());
        lemma_hunk_lines(ops, matched);
        let new = spliced(lines, hunk, at);
        assert(new.take(at) =~= lines.take(at));
        assert(new.skip(at + lines_after(ops)) =~= lines.skip(at + lines_before(ops)));
        assert forall|k: int| 0 <= k < ops.len() implies match #[trigger] ops[k] {
            OpView::Context(_) => new[at + lines_after(ops.take(k))] == lines[at + lines_before(
                ops.take(k),
            )],
            OpView::Remove(_) => true,
            OpView::Add(line) => new[at + lines_after(ops.take(k))] == line,
        } by {
            if let OpView::Context(line) = ops[k] {
                assert(matched[lines_before(ops.take(k)) as int] == lines[at + lines_before(
                    ops.take(k),
                )]);
            }
        }
        assert(rewritten(lines, new, ops, at));
    }
}

/// Hunks are carried out in turn, each searched for behind the lines that the one before leaves,
/// on the file that it leaves; where one has no place, none behind it is carried out.
pub proof fn hunks_are_applied_in_turn(
    lines: Seq<Seq<char>>,
    cursor: int,
    hunk: HunkView,
    others: Seq<HunkView>,
)
    requires
        0 <= cursor <= lines.len(),
    ensures
        match applied(lines, cursor, seq![hunk]) {
            Err(old) => applied(lines, cursor, seq![hunk] + others) == Err::<Seq<Seq<char>>, _>(
                old,
            ),
            Ok(new) => exists|start: int, at: int|
                #[trigger] carried_out(lines, cursor, hunk, start, at, new) && applied(
                    lines,
                    cursor,
                    seq![hunk] + others,
                ) == applied(new, at + lines_after(hunk.ops), others),
        },
        applied(lines, cursor, Seq::empty()) == Ok::<_, Seq<Seq<char>>>(lines),
{
    let all = seq![hunk] + others;
    assert(all.drop_first() =~= others);
    lemma_carried_out(lines, cursor, hunk);
    lemma_applied_once(lines, cursor, hunk);
    if let Some(at) = landing(lines, cursor, hunk) {
        let new = applied(lines, cursor, seq![hunk])->Ok_0;
        let start = search_start(lines, cursor, hunk);
        assert(carried_out(lines, cursor, hunk, start, at, new));
        assert(applied(lines, cursor, all) == applied(new, at + lines_after(hunk.ops), others));
    }
}

/// How many lines some hunks expect in all.
pub open spec fn all_before(hunks: Seq<HunkView>) -> int {
    hunks.fold_left(0int, |n: int, hunk: HunkView| n + lines_before(hunk.ops))
}

/// How many lines some hunks leave behind in all.
pub open spec fn all_after(hunks: Seq<HunkView>) -> int {
    hunks.fold_left(0int, |n: int, hunk: HunkView| n + lines_after(hunk.ops))
}

/// No hunk changes what stands before the cursor, and the file grows by the lines that are added
/// and shrinks by those that are removed, however many hunks there are.
pub proof fn what_hunks_change_is_counted(
    lines: Seq<Seq<char>>,
    cursor: int,
    hunks: Seq<HunkView>,
)
    requires
        0 <= cursor <= lines.len(),
    ensures
        applied(lines, cursor, hunks) matches Ok(new) ==> {
            &&& new.len() == lines.len() - all_before(hunks) + all_after(hunks)
            &&& cursor <= new.len()
            &&& new.take(cursor) == lines.take(cursor)
        },
    decreases hunks.len(),
{
    let before = |n: int, hunk: HunkView| n + lines_before(hunk.ops);
    let after = |n: int, hunk: HunkView| n + lines_after(hunk.ops);
    if hunks.len() == 0 {
    } else {
        let hunk = hunks[0];
        let others = hunks.drop_first();
        assert(seq![hunk] + others =~= hunks);
        lemma_fold_shift(others, before, 0, lines_before(hunk.ops) as int);
        lemma_fold_shift(others, after, 0, lines_after(hunk.ops) as int);
        lemma_fold_front(hunks, before, 0);
        lemma_fold_front(hunks, after, 0);
        if applied(lines, cursor, hunks) is Ok {
            lemma_carried_out(lines, cursor, hunk);
            let at = landing(lines, cursor, hunk)->0;
            let new = spliced(lines, hunk, at);
            let next = at + replacement(lines, hunk, at).len();
            what_hunks_change_is_counted(new, next, others);
            let end = applied(new, next, others)->Ok_0;
            assert(end.take(cursor) =~= end.take(next).take(cursor));
            assert(new.take(next).take(cursor) =~= lines.take(cursor));
        }
    }
}

/// A sum over a list is the same from the front.
proof fn lemma_fold_front(hunks: Seq<HunkView>, f: spec_fn(int, HunkView) -> int, n: int)
    requires
        hunks.len() > 0,
    ensures
        hunks.fold_left(n, f) == hunks.drop_first().fold_left(f(n, hunks[0]), f),
    decreases hunks.len(),
{
    reveal_with_fuel(Seq::fold_left, 2);
    if hunks.len() > 1 {
        lemma_fold_front(hunks.drop_last(), f, n);
        assert(hunks.drop_last().drop_first() =~= hunks.drop_first().drop_last());
    } else {
        assert(hunks.drop_last() =~= Seq::empty());
    }
}

/// A sum that starts higher ends higher by as much.
proof fn lemma_fold_shift(hunks: Seq<HunkView>, f: spec_fn(int, HunkView) -> int, n: int, m: int)
    requires
        forall|a: int, b: int, h: HunkView| #[trigger] f(a, h) - a == #[trigger] f(b, h) - b,
    ensures
        hunks.fold_left(n + m, f) == hunks.fold_left(n, f) + m,
    decreases hunks.len(),
{
    reveal_with_fuel(Seq::fold_left, 2);
    if hunks.len() > 0 {
        lemma_fold_shift(hunks.drop_last(), f, n, m);
    }
}

/// The lines of a file are its text between the line feeds: joined with them again, and ended
/// with one where the file is, they are the file.
pub proof fn the_lines_of_a_file_are_its_text(contents: Seq<char>)
    requires
        contents.len() > 0,
    ensures
        contents.last() == '\n' ==> text::joined(file_lines(contents), "\n"@).push('\n')
            == contents,
        contents.last() != '\n' ==> text::joined(file_lines(contents), "\n"@) == contents,
        forall|i: int|
            0 <= i < file_lines(contents).len() ==> !(#[trigger] file_lines(contents)[i]).contains(
                '\n',
            ),
{
    reveal_strlit("\n");
    assert("\n"@ =~= seq!['\n']);
    if contents.last() == '\n' {
        crate::paths::lemma_join_undoes_split(contents.drop_last(), '\n');
        text::pieces_hold_no_separator(contents.drop_last(), '\n');
        assert(contents.drop_last().push('\n') =~= contents);
    } else {
        crate::paths::lemma_join_undoes_split(contents, '\n');
        text::pieces_hold_no_separator(contents, '\n');
    }
}

/// An updated file is the lines that its hunks leave, each ended by a line feed, the last one
/// only where the file was empty before or its last was; and where a hunk has no place, the
/// failure names the file.
pub proof fn an_updated_file_is_its_lines(
    previous: Seq<char>,
    hunks: Seq<HunkView>,
    display: Seq<char>,
)
    ensures
        match (updated(previous, hunks, display), applied(file_lines(previous), 0, hunks)) {
            (Ok(contents), Ok(lines)) => {
                let out = text::joined(lines, "\n"@);
                &&& contents == out || contents == out.push('\n')
                &&& contents.len() > out.len() <==> out.len() > 0 && (previous.len() == 0
                    || previous.last() == '\n')
            },
            (Err(error), Err(old)) => {
                &&& error is Execution
                &&& error->Execution_code == "no_match"@
                &&& text::has_prefix(error->Execution_message, display)
                &&& forall|i: int|
                    0 <= i < old.len() && trimmed(#[trigger] old[i]).len() > 0 && (forall|j: int|
                        0 <= j < i ==> trimmed(#[trigger] old[j]).len() == 0) ==> text::has_suffix(
                        error->Execution_message,
                        "`"@ + old[i] + "`"@,
                    )
            },
            _ => false,
        },
{
    if let (Err(error), Err(old)) = (
        updated(previous, hunks, display),
        applied(file_lines(previous), 0, hunks),
    ) {
        let message = error->Execution_message;
        assert(message.take(display.len() as int) =~= display);
        assert forall|i: int|
            0 <= i < old.len() && trimmed(#[trigger] old[i]).len() > 0 && (forall|j: int|
                0 <= j < i ==> trimmed(#[trigger] old[j]).len() == 0) implies text::has_suffix(
            message,
            "`"@ + old[i] + "`"@,
        ) by {
            lemma_sample(old, i);
            reveal_strlit(": hunk context not found, starting at `");
            reveal_strlit("`");
            let end = "`"@ + old[i] + "`"@;
            assert(message.skip(message.len() - end.len()) =~= end);
        }
    }
}

/// The line by which a hunk is named is its first that is not blank.
proof fn lemma_sample(old: Seq<Seq<char>>, i: int)
    requires
        0 <= i < old.len(),
        trimmed(old[i]).len() > 0,
        forall|j: int| 0 <= j < i ==> trimmed(#[trigger] old[j]).len() == 0,
    ensures
        sample_of(old) == old[i],
    decreases old.len(),
{
    if i > 0 {
        assert(trimmed(old[0]).len() == 0);
        assert forall|j: int| 0 <= j < i - 1 implies trimmed(
            #[trigger] old.drop_first()[j],
        ).len() == 0 by {
            assert(old.drop_first()[j] == old[j + 1]);
        }
        lemma_sample(old.drop_first(), i - 1);
    }
}

/// A disk on which some acts have been carried out.
pub open spec fn disk_after(disk: Map<Seq<char>, Seq<char>>, acts: Seq<ActView>) -> Map<
    Seq<char>,
    Seq<char>,
> {
    acts.fold_left(
        disk,
        |now: Map<Seq<char>, Seq<char>>, act: ActView|
            match act {
                ActView::Remove(path) => now.remove(path),
                ActView::Write(path, contents) => now.insert(path, contents),
            },
    )
}

/// Whether what was seen at some paths is what a disk holds.
pub open spec fn seen_on(
    disk: Map<Seq<char>, Seq<char>>,
    seen: ObservedView,
    own: Seq<char>,
    target: Option<Seq<char>>,
) -> bool {
    &&& seen.exists == disk.contains_key(own)
    &&& seen.contents == (if disk.contains_key(own) {
        ReadView::Contents(disk[own])
    } else {
        ReadView::NotFound
    })
    &&& target matches Some(path) ==> seen.target_exists == disk.contains_key(path)
}

/// A section does to the disk what it says, and nothing else: adding a file makes it with its
/// contents, where there was none; deleting one takes it away, where it was there; updating one
/// leaves it with what its hunks come to, and moving it leaves nothing behind and writes over
/// nothing. Where a section cannot do that it fails.
pub proof fn a_section_does_what_it_says(
    root: Seq<char>,
    section: SectionView,
    seen: ObservedView,
    disk: Map<Seq<char>, Seq<char>>,
)
    requires
        ({
            let own = match section {
                SectionView::Add { path, .. } => path,
                SectionView::Delete { path } => path,
                SectionView::Update { path, .. } => path,
            };
            let target = match section {
                SectionView::Update { move_to, .. } => match move_to {
                    Some(path) => Some(support::resolved(root, path)),
                    None => None,
                },
                _ => None,
            };
            seen_on(disk, seen, support::resolved(root, own), target)
        }),
    ensures
        match section {
            SectionView::Add { path, contents } => {
                let own = support::resolved(root, path);
                &&& planned(root, section, seen) is Ok <==> contained(own, root)
                    && !disk.contains_key(own)
                &&& planned(root, section, seen) matches Ok(step) ==> {
                    &&& disk_after(disk, step.acts()) == disk.insert(own, contents)
                    &&& step.change.kind == ChangeKind::Added
                    &&& step.change.path == displayed(root, own)
                    &&& step.change.moved_to is None
                    &&& step.change.diff == diff_of(Seq::empty(), contents)
                }
            },
            SectionView::Delete { path } => {
                let own = support::resolved(root, path);
                &&& planned(root, section, seen) is Ok <==> contained(own, root)
                    && disk.contains_key(own)
                &&& planned(root, section, seen) matches Ok(step) ==> {
                    &&& disk_after(disk, step.acts()) == disk.remove(own)
                    &&& step.change.kind == ChangeKind::Deleted
                    &&& step.change.path == displayed(root, own)
                    &&& step.change.moved_to is None
                    &&& step.change.diff == diff_of(disk[own], Seq::empty())
                }
            },
            SectionView::Update { path, move_to, hunks } => {
                let own = support::resolved(root, path);
                let new = updated(disk[own], hunks, displayed(root, own));
                let target = match move_to {
                    Some(path) => support::resolved(root, path),
                    None => own,
                };
                &&& planned(root, section, seen) is Ok <==> contained(own, root)
                    && disk.contains_key(own) && new is Ok && (move_to is Some ==> contained(
                    target,
                    root,
                ) && (target == own || !disk.contains_key(target)))
                &&& planned(root, section, seen) matches Ok(step) ==> {
                    &&& disk_after(disk, step.acts()) == disk.remove(own).insert(target, new->Ok_0)
                    &&& step.change.kind == ChangeKind::Updated
                    &&& step.change.path == displayed(root, own)
                    &&& step.change.moved_to == (if move_to is Some {
                        Some(displayed(root, target))
                    } else {
                        None
                    })
                    &&& step.change.diff == diff_of(disk[own], new->Ok_0)
                }
            },
        },
{
    reveal(planned);
    reveal_strlit("");
    assert(""@ =~= Seq::<char>::empty());
    let step = planned(root, section, seen)->Ok_0;
    if planned(root, section, seen) is Ok {
        lemma_acts(disk, step);
        match section {
            SectionView::Update { path, move_to, hunks } => {
                let own = support::resolved(root, path);
                let new = updated(disk[own], hunks, displayed(root, own))->Ok_0;
                assert(disk.remove(own).insert(own, new) =~= disk.insert(own, new));
            },
            _ => {},
        }
    }
}

/// What a step does to a disk.
proof fn lemma_acts(disk: Map<Seq<char>, Seq<char>>, step: StepView)
    ensures
        ({
            let less = match step.remove {
                Some(path) => disk.remove(path),
                None => disk,
            };
            disk_after(disk, step.acts()) == (match step.write {
                Some((path, contents)) => less.insert(path, contents),
                None => less,
            })
        }),
{
    reveal_with_fuel(Seq::fold_left, 3);
    let acts = step.acts();
    if acts.len() == 2 {
        assert(acts.drop_last().drop_last() =~= Seq::<ActView>::empty());
        assert(acts.drop_last() =~= seq![acts[0]]);
    } else if acts.len() == 1 {
        assert(acts.drop_last() =~= Seq::<ActView>::empty());
    }
}

/// The line of a change says what was done, to which file and how far, and where the file went if
/// it was moved.
pub proof fn a_change_is_reported(change: FileChangeView)
    ensures
        change_line(change) == (match change.kind {
            ChangeKind::Added => "added "@,
            ChangeKind::Updated => "updated "@,
            ChangeKind::Deleted => "deleted "@,
        }) + change.path + (match change.moved_to {
            Some(target) => " -> "@ + target,
            None => Seq::empty(),
        }) + " (+"@ + text::decimal_of(change.diff.added) + " -"@ + text::decimal_of(
            change.diff.removed,
        ) + ")"@,
{
    reveal_strlit("added ");
    reveal_strlit("updated ");
    reveal_strlit("deleted ");
    reveal_strlit("added");
    reveal_strlit("updated");
    reveal_strlit("deleted");
    reveal_strlit(" ");
    let verb = match change.kind {
        ChangeKind::Added => "added "@,
        ChangeKind::Updated => "updated "@,
        ChangeKind::Deleted => "deleted "@,
    };
    let moved = match change.moved_to {
        Some(target) => " -> "@ + target,
        None => Seq::empty(),
    };
    assert(verb_of(change.kind) + " "@ =~= verb);
    assert(change_line(change) =~= verb + change.path + moved + " (+"@ + text::decimal_of(
        change.diff.added,
    ) + " -"@ + text::decimal_of(change.diff.removed) + ")"@);
}

/// How many lines some hunks remove in all.
pub open spec fn all_removed(hunks: Seq<HunkView>) -> int
    decreases hunks.len(),
{
    if hunks.len() == 0 {
        0
    } else {
        hunks[0].ops.filter(|op: OpView| op is Remove).len() + all_removed(hunks.drop_first())
    }
}

/// Whether some places of a file rise from one to the next and all stand in it.
pub open spec fn rising(places: Seq<int>, bound: int) -> bool {
    &&& forall|i: int| 0 <= i < places.len() ==> 0 <= #[trigger] places[i] < bound
    &&& forall|i: int, j: int| 0 <= i < j < places.len() ==> places[i] < places[j]
}

/// Whether the lines at some places of a file stand, in order, at some places of another.
pub open spec fn kept(
    lines: Seq<Seq<char>>,
    new: Seq<Seq<char>>,
    from: Seq<int>,
    to: Seq<int>,
) -> bool {
    &&& from.len() == to.len()
    &&& rising(from, lines.len() as int)
    &&& rising(to, new.len() as int)
    &&& forall|i: int| 0 <= i < from.len() ==> new[#[trigger] to[i]] == lines[from[i]]
}

/// Whether a context line of a hunk stands at one place before it is carried out and at another
/// after, both counted from where the hunk lands.
spec fn is_context(ops: Seq<OpView>, before: int, after: int) -> bool {
    exists|k: int|
        0 <= k < ops.len() && (#[trigger] ops[k]) is Context && before == lines_before(ops.take(k))
            && after == lines_after(ops.take(k))
}

/// Where the context lines of a hunk stand before and after it is carried out, counted from where it
/// lands.
proof fn lemma_context_places(ops: Seq<OpView>) -> (r: (Seq<int>, Seq<int>))
    ensures
        r.0.len() == r.1.len(),
        r.0.len() == lines_before(ops) - ops.filter(|op: OpView| op is Remove).len(),
        rising(r.0, lines_before(ops) as int),
        rising(r.1, lines_after(ops) as int),
        forall|i: int| 0 <= i < r.0.len() ==> is_context(ops, r.0[i], #[trigger] r.1[i]),
    decreases ops.len(),
{
    reveal(Seq::filter);
    if ops.len() == 0 {
        (Seq::empty(), Seq::empty())
    } else {
        let init = ops.drop_last();
        let n = ops.len() - 1;
        let before = lemma_context_places(init);
        lemma_counted(ops);
        assert(ops.take(n) =~= init);
        let r = if ops[n] is Context {
            (before.0.push(lines_before(init) as int), before.1.push(lines_after(init) as int))
        } else {
            before
        };
        assert forall|i: int| 0 <= i < r.0.len() implies is_context(
            ops,
            r.0[i],
            #[trigger] r.1[i],
        ) by {
            if i < before.0.len() {
                assert(is_context(init, before.0[i], before.1[i]));
                let k = choose|k: int|
                    0 <= k < init.len() && (#[trigger] init[k]) is Context && before.0[i]
                        == lines_before(init.take(k)) && before.1[i] == lines_after(init.take(k));
                assert(ops[k] == init[k]);
                assert(ops.take(k) =~= init.take(k));
            } else {
                assert(ops[n] is Context);
            }
        }
        r
    }
}

/// Nothing is lost but what is removed: all other lines of the file stand in the updated file, as
/// they were and in their order, however many hunks there are; and those before the cursor where they
/// were.
pub proof fn only_removed_lines_are_lost(
    lines: Seq<Seq<char>>,
    cursor: int,
    hunks: Seq<HunkView>,
) -> (places: (Seq<int>, Seq<int>))
    requires
        0 <= cursor <= lines.len(),
        applied(lines, cursor, hunks) is Ok,
    ensures
        kept(lines, applied(lines, cursor, hunks)->Ok_0, places.0, places.1),
        places.0.len() == lines.len() - all_removed(hunks),
        places.0.len() >= cursor,
        forall|i: int|
            0 <= i < cursor ==> #[trigger] places.0[i] == i && places.1[i] == i,
    decreases hunks.len(),
{
    if hunks.len() == 0 {
        let all = Seq::new(lines.len(), |i: int| i);
        (all, all)
    } else {
        let hunk = hunks[0];
        let ops = hunk.ops;
        let others = hunks.drop_first();
        assert(hunks =~= seq![hunk] + others);
        lemma_carried_out(lines, cursor, hunk);
        let at = landing(lines, cursor, hunk)->0;
        let mid = spliced(lines, hunk, at);
        let b = lines_before(ops) as int;
        let a = lines_after(ops) as int;
        assert(rewritten(lines, mid, ops, at));
        assert(applied(lines, cursor, hunks) == applied(mid, at + a, others));
        let new = applied(lines, cursor, hunks)->Ok_0;
        let later = only_removed_lines_are_lost(mid, at + a, others);
        let context = lemma_context_places(ops);
        let c = context.0.len() as int;
        let n = (at + c + later.0.len() - (at + a)) as nat;
        let from = Seq::new(
            n,
            |i: int|
                if i < at {
                    i
                } else if i < at + c {
                    at + context.0[i - at]
                } else {
                    later.0[i - c + a] - a + b
                },
        );
        let to = Seq::new(
            n,
            |i: int|
                if i < at {
                    i
                } else if i < at + c {
                    at + context.1[i - at]
                } else {
                    later.1[i - c + a]
                },
        );
        assert forall|i: int| at + a <= i < later.0.len() implies #[trigger] later.0[i] >= at + a
            && later.1[i] >= at + a by {
            if at + a > 0 {
                assert(later.0[at + a - 1] == at + a - 1);
                assert(later.0[at + a - 1] < later.0[i]);
                assert(later.1[at + a - 1] < later.1[i]);
            }
        }
        assert forall|i: int| 0 <= i < at + a implies #[trigger] mid[i] == new[i] by {
            assert(later.0[i] == i);
            assert(new[later.1[i]] == mid[later.0[i]]);
        }
        assert forall|i: int| at + a <= i < mid.len() implies #[trigger] mid[i] == lines[i - a
            + b] by {
            assert(mid[i] == mid.skip(at + a)[i - at - a]);
            assert(lines[i - a + b] == lines.skip(at + b)[i - at - a]);
        }
        assert forall|i: int| 0 <= i < n implies new[#[trigger] to[i]] == lines[from[i]] by {
            if i < at {
                assert(mid[i] == mid.take(at)[i]);
                assert(lines[i] == lines.take(at)[i]);
            } else if i < at + c {
                assert(is_context(ops, context.0[i - at], context.1[i - at]));
                let k = choose|k: int|
                    0 <= k < ops.len() && (#[trigger] ops[k]) is Context && context.0[i - at]
                        == lines_before(ops.take(k)) && context.1[i - at] == lines_after(
                        ops.take(k),
                    );
                assert(context.1[i - at] == lines_after(ops.take(k)));
                assert(mid[at + lines_after(ops.take(k))] == lines[at + lines_before(
                    ops.take(k),
                )]);
            } else {
                let j = i - c + a;
                assert(new[later.1[j]] == mid[later.0[j]]);
            }
        }
        assert(rising(from, lines.len() as int));
        assert(rising(to, new.len() as int));
        (from, to)
    }
}

} // verus!

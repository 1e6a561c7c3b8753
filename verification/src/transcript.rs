//! What the scrollback holds.
//!
//! The transcript is an ordered list of cells rather than a string, because a tool call has
//! to be *revised* when its result arrives. A surface that appended a line per event would
//! leave the reader scrolling back to find out whether the edit it approved actually
//! happened.

use vstd::prelude::*;
use crate::paths::{below, contained, AbsPath};
use crate::protocol::{
    block_view, block_views, first_text, first_text_of, joined_text, json_view, lemma_block_views,
    lemma_json_views, lemma_member_views, member_views, message_views, text_of, BlockView,
    ContentBlock, Json, JsonView, Message, MessageView, PermissionAnswer, Role, ToolCall,
    ToolCallView, ToolResult, ToolResultView, ToolStatus,
};
use crate::text;
use crate::text::{decimal_of, has_prefix, joined, lines_of, opt, split_on, texts, trimmed, words_of};

verus! {

// One-line summaries.

/// A text flattened to a single line, and cut with an ellipsis where it is longer than
/// `limit` characters.
pub open spec fn flattened(s: Seq<char>, limit: nat) -> Seq<char> {
    let flat = joined(words_of(s), " "@);
    if flat.len() <= limit {
        flat
    } else if limit == 0 {
        seq!['…']
    } else {
        flat.take(limit - 1).push('…')
    }
}

/// Flattens to a single line and ellipsizes, counting characters rather than bytes so a
/// multi-byte path is not cut mid-codepoint.
pub fn one_line(s: &str, limit: usize) -> (r: String)
    ensures
        r@ == flattened(s@, limit as nat),
{
    let words = text::split_white_space(s);
    let flat = text::join(&words, " ");
    let v = text::to_chars(flat.as_str());
    if v.len() <= limit {
        return flat;
    }
    let keep: usize = if limit == 0 {
        0
    } else {
        limit - 1
    };
    let mut r = text::from_chars(&v, 0, keep);
    r.push('…');
    assert(r@ =~= flattened(s@, limit as nat));
    r
}

/// How an argument is shown beside its name.
pub open spec fn scalar_of(value: JsonView) -> Seq<char> {
    match value {
        JsonView::Text(t) => flattened(t, 60),
        JsonView::Array(items) => "["@ + decimal_of(items.len()) + " items]"@,
        JsonView::Object(members) => "{"@ + decimal_of(members.len()) + " fields}"@,
        JsonView::Null => "null"@,
        JsonView::Bool(b) => if b {
            "true"@
        } else {
            "false"@
        },
        JsonView::Number(n) => n,
        JsonView::Raw(t) => t,
    }
}

/// How an argument is shown beside its name.
fn scalar(value: &Json) -> (r: String)
    ensures
        r@ == scalar_of(value@),
{
    match value {
        Json::Text(t) => one_line(t.as_str(), 60),
        Json::Array(items) => {
            proof {
                lemma_json_views(items@);
            }
            let n = text::decimal(items.len() as u64);
            text::concat3("[", n.as_str(), " items]")
        },
        Json::Object(members) => {
            proof {
                lemma_member_views(members@);
            }
            let n = text::decimal(members.len() as u64);
            text::concat3("{", n.as_str(), " fields}")
        },
        Json::Null => text::copy("null"),
        Json::Bool(b) => if *b {
            text::copy("true")
        } else {
            text::copy("false")
        },
        Json::Number(n) => n.clone(),
        Json::Raw(t) => t.clone(),
    }
}

/// The members of an object as `key=value`.
pub open spec fn pairs_of(members: Seq<(Seq<char>, JsonView)>) -> Seq<Seq<char>> {
    members.map_values(|m: (Seq<char>, JsonView)| m.0 + "="@ + scalar_of(m.1))
}

/// Tool arguments on one line.
pub open spec fn summarized(arguments: JsonView) -> Seq<char> {
    flattened(
        match arguments {
            JsonView::Null => Seq::empty(),
            JsonView::Object(members) => joined(pairs_of(members), " "@),
            _ => scalar_of(arguments),
        },
        160,
    )
}

/// Collapses tool arguments to one line.
///
/// Objects are shown as `key=value` pairs because the fields a person needs to judge a call
/// are almost always top level, and pretty JSON would push the next cell off the screen.
pub fn summarize_arguments(arguments: &Json) -> (r: String)
    ensures
        r@ == summarized(arguments@),
{
    match arguments {
        Json::Null => {
            let none = String::new();
            assert(none@ =~= Seq::<char>::empty());
            one_line(none.as_str(), 160)
        },
        Json::Object(members) => {
            let ghost views = member_views(members@);
            proof {
                lemma_member_views(members@);
            }
            let mut pairs: Vec<String> = Vec::new();
            let mut i: usize = 0;
            while i < members.len()
                invariant
                    i <= members.len(),
                    pairs.len() == i,
                    views.len() == members.len(),
                    forall|k: int|
                        0 <= k < members.len() ==> #[trigger] views[k] == (
                            members@[k].0@,
                            json_view(members@[k].1),
                        ),
                    forall|k: int| 0 <= k < i ==> (#[trigger] pairs@[k])@ == pairs_of(views)[k],
                decreases members.len() - i,
            {
                assert(views[i as int] == (members@[i as int].0@, json_view(members@[i as int].1)));
                let value = scalar(&members[i].1);
                pairs.push(text::concat3(members[i].0.as_str(), "=", value.as_str()));
                i += 1;
            }
            assert(texts(pairs@) =~= pairs_of(views));
            let all = text::join(&pairs, " ");
            one_line(all.as_str(), 160)
        },
        _ => {
            let value = scalar(arguments);
            one_line(value.as_str(), 160)
        },
    }
}

/// The pieces of a path that are not empty.
pub open spec fn filled(pieces: Seq<Seq<char>>) -> Seq<Seq<char>>
    decreases pieces.len(),
{
    if pieces.len() == 0 {
        Seq::empty()
    } else if pieces.last().len() > 0 {
        filled(pieces.drop_last()).push(pieces.last())
    } else {
        filled(pieces.drop_last())
    }
}

/// The pieces of a path that are not empty.
fn filled_pieces(path: &str) -> (r: Vec<String>)
    ensures
        texts(r@) == filled(split_on(path@, '/')),
{
    let pieces = text::split(path, '/');
    let ghost all = texts(pieces@);
    let mut r: Vec<String> = Vec::new();
    let mut i: usize = 0;
    assert(texts(r@) =~= filled(all.take(0)));
    while i < pieces.len()
        invariant
            i <= pieces.len(),
            all == texts(pieces@),
            texts(r@) == filled(all.take(i as int)),
        decreases pieces.len() - i,
    {
        let ghost done = texts(r@);
        assert(all.take(i as int + 1).drop_last() =~= all.take(i as int));
        assert(all[i as int] == pieces@[i as int]@);
        if pieces[i].as_str().unicode_len() > 0 {
            r.push(pieces[i].clone());
            assert(texts(r@) =~= done.push(all[i as int]));
        }
        i += 1;
    }
    assert(all.take(i as int) =~= all);
    r
}

/// How many pieces two paths have in common at their start.
pub open spec fn common(a: Seq<Seq<char>>, b: Seq<Seq<char>>) -> nat
    decreases a.len(),
{
    if a.len() > 0 && b.len() > 0 && a[0] == b[0] {
        1 + common(a.drop_first(), b.drop_first())
    } else {
        0
    }
}

/// The pieces of a path as they read from the directory under `prefix`.
pub open spec fn rerooted_pieces(parts: Seq<Seq<char>>, prefix: Seq<Seq<char>>) -> Seq<Seq<char>> {
    let n = common(parts, prefix);
    Seq::new((prefix.len() - n) as nat, |i: int| ".."@) + parts.skip(n as int)
}

/// A workspace-relative path as it reads from the directory under `prefix`.
pub open spec fn rerooted(path: Seq<char>, prefix: Seq<Seq<char>>) -> Seq<char> {
    if prefix.len() == 0 {
        path
    } else {
        let pieces = rerooted_pieces(filled(split_on(path, '/')), prefix);
        if pieces.len() == 0 {
            "."@
        } else {
            joined(pieces, "/"@)
        }
    }
}

/// Two paths have no more in common than each is long.
pub(crate) proof fn lemma_common(a: Seq<Seq<char>>, b: Seq<Seq<char>>)
    ensures
        common(a, b) <= a.len(),
        common(a, b) <= b.len(),
        a.take(common(a, b) as int) == b.take(common(a, b) as int),
    decreases a.len(),
{
    if a.len() > 0 && b.len() > 0 && a[0] == b[0] {
        lemma_common(a.drop_first(), b.drop_first());
        let n = common(a, b) as int;
        assert(a.take(n) =~= seq![a[0]] + a.drop_first().take(n - 1));
        assert(b.take(n) =~= seq![b[0]] + b.drop_first().take(n - 1));
    } else {
        assert(a.take(0) =~= b.take(0));
    }
}

/// Re-roots a workspace-relative path so it reads against `cwd_prefix`, the directory the
/// session was launched from, instead of the workspace root.
///
/// A path under the prefix loses it; one outside it grows `..` segments, so a glance at the
/// leading `../` is what tells a reader the call reached outside where they are sitting.
pub fn relative_to_cwd(path: &str, cwd_prefix: &Vec<String>) -> (r: String)
    ensures
        r@ == rerooted(path@, texts(cwd_prefix@)),
{
    if cwd_prefix.len() == 0 {
        return text::copy(path);
    }
    let parts = filled_pieces(path);
    let ghost a = texts(parts@);
    let ghost b = texts(cwd_prefix@);
    let mut n: usize = 0;
    proof {
        assert(a.skip(0) =~= a);
        assert(b.skip(0) =~= b);
    }
    while n < parts.len() && n < cwd_prefix.len()
        invariant_except_break
            common(a, b) == n + common(a.skip(n as int), b.skip(n as int)),
        invariant
            n <= parts.len(),
            n <= cwd_prefix.len(),
            a == texts(parts@),
            b == texts(cwd_prefix@),
        ensures
            n == common(a, b),
            n <= parts.len(),
            n <= cwd_prefix.len(),
        decreases parts.len() - n,
    {
        assert(a.skip(n as int)[0] == parts@[n as int]@);
        assert(b.skip(n as int)[0] == cwd_prefix@[n as int]@);
        assert(a.skip(n as int).drop_first() =~= a.skip(n as int + 1));
        assert(b.skip(n as int).drop_first() =~= b.skip(n as int + 1));
        if !text::eq(parts[n].as_str(), cwd_prefix[n].as_str()) {
            break;
        }
        n += 1;
    }
    let ghost ups = Seq::new((b.len() - n) as nat, |i: int| ".."@);
    let ghost pieces = rerooted_pieces(a, b);
    let mut r: Vec<String> = Vec::new();
    let mut i: usize = n;
    while i < cwd_prefix.len()
        invariant
            n <= i <= cwd_prefix.len(),
            r.len() == i - n,
            forall|k: int| 0 <= k < r.len() ==> (#[trigger] r@[k])@ == ".."@,
        decreases cwd_prefix.len() - i,
    {
        r.push(text::copy(".."));
        i += 1;
    }
    assert(texts(r@) =~= ups);
    let mut k: usize = n;
    assert(texts(r@) =~= ups + a.subrange(n as int, n as int));
    while k < parts.len()
        invariant
            n <= k <= parts.len(),
            a == texts(parts@),
            texts(r@) == ups + a.subrange(n as int, k as int),
        decreases parts.len() - k,
    {
        let ghost done = texts(r@);
        r.push(parts[k].clone());
        assert(texts(r@) =~= done.push(a[k as int]));
        assert(texts(r@) =~= ups + a.subrange(n as int, k as int + 1));
        k += 1;
    }
    assert(a.subrange(n as int, k as int) =~= a.skip(n as int));
    assert(texts(r@) == pieces);
    if r.len() == 0 {
        assert(pieces.len() == 0);
        text::copy(".")
    } else {
        assert(pieces.len() > 0);
        text::join(&r, "/")
    }
}

/// The value of the first member with this key, where it is a text.
pub open spec fn member_text(members: Seq<(Seq<char>, JsonView)>, key: Seq<char>) -> Option<
    Seq<char>,
>
    decreases members.len(),
{
    if members.len() == 0 {
        None
    } else if members[0].0 == key {
        match members[0].1 {
            JsonView::Text(t) => Some(t),
            _ => None,
        }
    } else {
        member_text(members.drop_first(), key)
    }
}

/// The value of the first member with this key, where it is a text with something to read.
pub open spec fn salient(members: Seq<(Seq<char>, JsonView)>, key: Seq<char>) -> Option<Seq<char>> {
    match member_text(members, key) {
        Some(t) => if trimmed(t).len() > 0 {
            Some(t)
        } else {
            None
        },
        None => None,
    }
}

/// The value of the first member with this key, where it is a text with something to read.
fn salient_text(members: &Vec<(String, Json)>, key: &str) -> (r: Option<String>)
    ensures
        opt(r) == salient(member_views(members@), key@),
{
    let ghost views = member_views(members@);
    let mut i: usize = 0;
    proof {
        lemma_member_views(members@);
        assert(views.skip(0) =~= views);
    }
    while i < members.len()
        invariant
            i <= members.len(),
            views == member_views(members@),
            views.len() == members.len(),
            forall|k: int|
                0 <= k < members.len() ==> #[trigger] views[k] == (
                    members@[k].0@,
                    json_view(members@[k].1),
                ),
            member_text(views, key@) == member_text(views.skip(i as int), key@),
        decreases members.len() - i,
    {
        assert(views.skip(i as int)[0] == views[i as int]);
        assert(views.skip(i as int).drop_first() =~= views.skip(i as int + 1));
        if text::eq(members[i].0.as_str(), key) {
            if let Json::Text(t) = &members[i].1 {
                let visible = text::trim(t.as_str());
                if visible.as_str().unicode_len() > 0 {
                    return Some(t.clone());
                }
            }
            return None;
        }
        i += 1;
    }
    None
}

/// The one thing worth reading in a call's arguments: the first of these fields that says
/// anything, in the order a reader would want them; all arguments where none stands out.
pub open spec fn headlined(arguments: JsonView, prefix: Seq<Seq<char>>) -> Seq<char> {
    match arguments {
        JsonView::Object(members) => if salient(members, "command"@) is Some {
            flattened(salient(members, "command"@)->0, 120)
        } else if salient(members, "path"@) is Some {
            flattened(rerooted(salient(members, "path"@)->0, prefix), 120)
        } else if salient(members, "file_path"@) is Some {
            flattened(rerooted(salient(members, "file_path"@)->0, prefix), 120)
        } else if salient(members, "pattern"@) is Some {
            flattened(salient(members, "pattern"@)->0, 120)
        } else if salient(members, "query"@) is Some {
            flattened(salient(members, "query"@)->0, 120)
        } else if salient(members, "url"@) is Some {
            flattened(salient(members, "url"@)->0, 120)
        } else {
            summarized(arguments)
        },
        _ => summarized(arguments),
    }
}

/// One line for the collapsed view of a call.
///
/// Falls back to the full `key=value` form when no field stands out, so an unknown tool still
/// shows something rather than nothing. Nothing here is keyed on a vendor: these are argument
/// names, not tool identities.
pub fn headline(arguments: &Json, cwd_prefix: &Vec<String>) -> (r: String)
    ensures
        r@ == headlined(arguments@, texts(cwd_prefix@)),
{
    if let Json::Object(members) = arguments {
        if let Some(t) = salient_text(members, "command") {
            return one_line(t.as_str(), 120);
        }
        if let Some(t) = salient_text(members, "path") {
            let shown = relative_to_cwd(t.as_str(), cwd_prefix);
            return one_line(shown.as_str(), 120);
        }
        if let Some(t) = salient_text(members, "file_path") {
            let shown = relative_to_cwd(t.as_str(), cwd_prefix);
            return one_line(shown.as_str(), 120);
        }
        if let Some(t) = salient_text(members, "pattern") {
            return one_line(t.as_str(), 120);
        }
        if let Some(t) = salient_text(members, "query") {
            return one_line(t.as_str(), 120);
        }
        if let Some(t) = salient_text(members, "url") {
            return one_line(t.as_str(), 120);
        }
    }
    summarize_arguments(arguments)
}

/// The first line of a result, where it says anything.
pub open spec fn first_line_of(content: Seq<BlockView>) -> Option<Seq<char>> {
    match first_text_of(content) {
        Some(t) => if trimmed(t).len() > 0 {
            Some(flattened(lines_of(trimmed(t))[0], 120))
        } else {
            None
        },
        None => None,
    }
}

/// Whether a line says that a search stopped early.
pub open spec fn is_note(line: Seq<char>) -> bool {
    line.len() > 0 && line[0] == '…'
}

/// How many lines are hits.
pub open spec fn hit_count(lines: Seq<Seq<char>>) -> nat
    decreases lines.len(),
{
    if lines.len() == 0 {
        0
    } else {
        hit_count(lines.drop_last()) + (if trimmed(lines.last()).len() > 0 && !is_note(
            lines.last(),
        ) {
            1nat
        } else {
            0
        })
    }
}

/// How many matches a search found, as far as it went.
pub open spec fn grep_summary_of(content: Seq<BlockView>) -> Option<Seq<char>> {
    match first_text_of(content) {
        None => None,
        Some(t) => {
            let body = trimmed(t);
            if body.len() == 0 {
                None
            } else if has_prefix(body, "no matches"@) {
                Some(flattened(body, 120))
            } else {
                let lines = lines_of(body);
                let count = hit_count(lines);
                let noun = if count == 1 {
                    "match"@
                } else {
                    "matches"@
                };
                if lines.len() > 0 && is_note(lines.last()) {
                    Some(decimal_of(count) + "+ "@ + noun)
                } else {
                    Some(decimal_of(count) + " "@ + noun)
                }
            }
        },
    }
}

/// The collapsed line shown once a call finishes: the first line of its result, but for a
/// search a count, which is what a reader wants before deciding whether to expand.
pub open spec fn detail_of(name: Seq<char>, content: Seq<BlockView>) -> Option<Seq<char>> {
    if name == "grep"@ {
        grep_summary_of(content)
    } else {
        first_line_of(content)
    }
}

fn first_line(content: &Vec<ContentBlock>) -> (r: Option<String>)
    ensures
        opt(r) == first_line_of(block_views(content@)),
{
    match first_text(content) {
        None => None,
        Some(t) => {
            let body = text::trim(t.as_str());
            if body.as_str().unicode_len() > 0 {
                let lines = text::lines(body.as_str());
                proof {
                    text::lemma_lines_nonempty(body@);
                    assert(texts(lines@).len() == lines.len());
                    assert(texts(lines@)[0] == lines@[0]@);
                }
                Some(one_line(lines[0].as_str(), 120))
            } else {
                None
            }
        },
    }
}

/// Whether a line says that a search stopped early.
fn is_note_line(line: &str) -> (r: bool)
    ensures
        r == is_note(line@),
{
    line.unicode_len() > 0 && line.get_char(0) == '…'
}

fn grep_summary(content: &Vec<ContentBlock>) -> (r: Option<String>)
    ensures
        opt(r) == grep_summary_of(block_views(content@)),
{
    let t = match first_text(content) {
        None => {
            return None;
        },
        Some(t) => t,
    };
    let body = text::trim(t.as_str());
    if body.as_str().unicode_len() == 0 {
        return None;
    }
    if text::starts_with(body.as_str(), "no matches") {
        return Some(one_line(body.as_str(), 120));
    }
    let lines = text::lines(body.as_str());
    let ghost all = texts(lines@);
    let mut count: usize = 0;
    let mut i: usize = 0;
    while i < lines.len()
        invariant
            i <= lines.len(),
            all == texts(lines@),
            count <= i,
            count == hit_count(all.take(i as int)),
        decreases lines.len() - i,
    {
        assert(all.take(i as int + 1).drop_last() =~= all.take(i as int));
        assert(all[i as int] == lines@[i as int]@);
        let visible = text::trim(lines[i].as_str());
        if visible.as_str().unicode_len() > 0 && !is_note_line(lines[i].as_str()) {
            count += 1;
        }
        i += 1;
    }
    assert(all.take(i as int) =~= all);
    let mut stopped = false;
    if lines.len() > 0 {
        assert(all.last() == lines@[lines.len() - 1]@);
        stopped = is_note_line(lines[lines.len() - 1].as_str());
    }
    let noun = if count == 1 {
        "match"
    } else {
        "matches"
    };
    let number = text::decimal(count as u64);
    Some(
        if stopped {
            text::concat3(number.as_str(), "+ ", noun)
        } else {
            text::concat3(number.as_str(), " ", noun)
        },
    )
}

/// The collapsed line shown once a call finishes.
pub fn detail_line(name: &str, content: &Vec<ContentBlock>) -> (r: Option<String>)
    ensures
        opt(r) == detail_of(name@, block_views(content@)),
{
    if text::eq(name, "grep") {
        grep_summary(content)
    } else {
        first_line(content)
    }
}

/// Past tense and the plural noun for a tool.
pub open spec fn verb_of(name: Seq<char>) -> (Seq<char>, Seq<char>) {
    if name == "read_file"@ {
        ("Read"@, "files"@)
    } else if name == "write_file"@ {
        ("Wrote"@, "files"@)
    } else if name == "list_dir"@ {
        ("Listed"@, "directories"@)
    } else if name == "grep"@ {
        ("Searched"@, "patterns"@)
    } else if name == "bash"@ {
        ("Ran"@, "commands"@)
    } else {
        (name, "calls"@)
    }
}

/// Past tense and the plural noun for a tool, so a run of calls reads as one sentence:
/// `Read 3 files`, `Ran 2 commands`.
///
/// Keyed on the tool's own name, which is what a tool declares about itself; an unknown tool
/// still groups, under its own name.
pub fn verb(name: &str) -> (r: (String, String))
    ensures
        (r.0@, r.1@) == verb_of(name@),
{
    if text::eq(name, "read_file") {
        (text::copy("Read"), text::copy("files"))
    } else if text::eq(name, "write_file") {
        (text::copy("Wrote"), text::copy("files"))
    } else if text::eq(name, "list_dir") {
        (text::copy("Listed"), text::copy("directories"))
    } else if text::eq(name, "grep") {
        (text::copy("Searched"), text::copy("patterns"))
    } else if text::eq(name, "bash") {
        (text::copy("Ran"), text::copy("commands"))
    } else {
        (text::copy(name), text::copy("calls"))
    }
}

// Cells.

/// How a tool call is currently doing.
#[derive(Clone, Copy, Debug, PartialEq, Eq, Structural)]
pub enum CallState {
    Running,
    Finished(ToolStatus),
}

/// A tool call and, once known, its outcome.
#[derive(Debug, PartialEq, Eq)]
pub struct ToolCell {
    pub id: String,
    pub name: String,
    /// The one thing worth reading in the arguments: a path, a command. This is the
    /// collapsed view: `read src/app.rs`, not `read path=…`.
    pub summary: String,
    /// Every argument as `key=value`, for the expanded view.
    pub arguments: String,
    pub state: CallState,
    /// First line of the result, so success is confirmable without expanding.
    pub detail: Option<String>,
}

/// What a [`ToolCell`] says.
pub struct ToolCellView {
    pub id: Seq<char>,
    pub name: Seq<char>,
    pub summary: Seq<char>,
    pub arguments: Seq<char>,
    pub state: CallState,
    pub detail: Option<Seq<char>>,
}

impl View for ToolCell {
    type V = ToolCellView;

    open spec fn view(&self) -> ToolCellView {
        ToolCellView {
            id: self.id@,
            name: self.name@,
            summary: self.summary@,
            arguments: self.arguments@,
            state: self.state,
            detail: opt(self.detail),
        }
    }
}

/// An approval request and, once given, the answer.
#[derive(Debug, PartialEq, Eq)]
pub struct PermissionCell {
    pub id: String,
    pub name: String,
    pub summary: String,
    pub reason: String,
    /// `None` while the turn is blocked on this prompt.
    pub answer: Option<PermissionAnswer>,
}

/// What a [`PermissionCell`] says.
pub struct PermissionCellView {
    pub id: Seq<char>,
    pub name: Seq<char>,
    pub summary: Seq<char>,
    pub reason: Seq<char>,
    pub answer: Option<PermissionAnswer>,
}

impl View for PermissionCell {
    type V = PermissionCellView;

    open spec fn view(&self) -> PermissionCellView {
        PermissionCellView {
            id: self.id@,
            name: self.name@,
            summary: self.summary@,
            reason: self.reason@,
            answer: self.answer,
        }
    }
}

/// A plan the agent asked to leave plan mode with.
///
/// It is a cell rather than an overlay because a plan is something the agent said: it belongs
/// in the scrollback with everything else said this session. It carries the permission id, so
/// answering the plan answers the call that proposed it.
#[derive(Debug, PartialEq, Eq)]
pub struct PlanCell {
    pub id: String,
    pub text: String,
    /// Where the plan was saved, when it could be.
    pub path: Option<String>,
    /// `None` while the turn is blocked on it.
    pub answer: Option<PermissionAnswer>,
}

/// What a [`PlanCell`] says.
pub struct PlanCellView {
    pub id: Seq<char>,
    pub text: Seq<char>,
    pub path: Option<Seq<char>>,
    pub answer: Option<PermissionAnswer>,
}

impl View for PlanCell {
    type V = PlanCellView;

    open spec fn view(&self) -> PlanCellView {
        PlanCellView { id: self.id@, text: self.text@, path: opt(self.path), answer: self.answer }
    }
}

/// One entry of the scrollback.
#[derive(Debug, PartialEq, Eq)]
pub enum Cell {
    Plan(PlanCell),
    User(String),
    Assistant(String),
    Tool(ToolCell),
    Permission(PermissionCell),
    /// A failed turn, or a local error. Never terminal.
    Error(String),
    /// Out-of-band host chatter: a login URL, a device code.
    Notice(String),
    /// The startup banner: pre-laid-out lines, shown once at the top of a fresh scrollback.
    Banner(Vec<String>),
}

/// What a [`Cell`] says.
pub enum CellView {
    Plan(PlanCellView),
    User(Seq<char>),
    Assistant(Seq<char>),
    Tool(ToolCellView),
    Permission(PermissionCellView),
    Error(Seq<char>),
    Notice(Seq<char>),
    Banner(Seq<Seq<char>>),
}

impl View for Cell {
    type V = CellView;

    open spec fn view(&self) -> CellView {
        match self {
            Cell::Plan(plan) => CellView::Plan(plan@),
            Cell::User(text) => CellView::User(text@),
            Cell::Assistant(text) => CellView::Assistant(text@),
            Cell::Tool(tool) => CellView::Tool(tool@),
            Cell::Permission(prompt) => CellView::Permission(prompt@),
            Cell::Error(message) => CellView::Error(message@),
            Cell::Notice(message) => CellView::Notice(message@),
            Cell::Banner(lines) => CellView::Banner(texts(lines@)),
        }
    }
}

/// What some cells say.
pub open spec fn cell_views(cells: Seq<Cell>) -> Seq<CellView> {
    cells.map_values(|c: Cell| c@)
}

/// The scrollback.
#[derive(Debug, PartialEq, Eq)]
pub struct Transcript {
    cells: Vec<Cell>,
    /// Makes the next delta open a new cell instead of extending the one already on screen.
    sealed: bool,
    /// Path components from the workspace root down to the directory the session was
    /// launched from.
    cwd_prefix: Vec<String>,
}

/// What a [`Transcript`] holds.
pub struct TranscriptView {
    pub cells: Seq<CellView>,
    pub sealed: bool,
    pub cwd_prefix: Seq<Seq<char>>,
}

impl View for Transcript {
    type V = TranscriptView;

    closed spec fn view(&self) -> TranscriptView {
        TranscriptView {
            cells: cell_views(self.cells@),
            sealed: self.sealed,
            cwd_prefix: texts(self.cwd_prefix@),
        }
    }
}

/// The last running call with this id.
pub open spec fn last_running(cells: Seq<CellView>, id: Seq<char>) -> Option<int>
    decreases cells.len(),
{
    if cells.len() == 0 {
        None
    } else {
        match cells.last() {
            CellView::Tool(tool) => if tool.id == id && tool.state == CallState::Running {
                Some(cells.len() - 1)
            } else {
                last_running(cells.drop_last(), id)
            },
            _ => last_running(cells.drop_last(), id),
        }
    }
}

/// Whether a cell is the prompt or the plan with this id.
pub open spec fn asks(cell: CellView, id: Seq<char>) -> bool {
    match cell {
        CellView::Permission(prompt) => prompt.id == id,
        CellView::Plan(plan) => plan.id == id,
        _ => false,
    }
}

/// The last prompt or plan with this id.
pub open spec fn last_asking(cells: Seq<CellView>, id: Seq<char>) -> Option<int>
    decreases cells.len(),
{
    if cells.len() == 0 {
        None
    } else if asks(cells.last(), id) {
        Some(cells.len() - 1)
    } else {
        last_asking(cells.drop_last(), id)
    }
}

/// A prompt or a plan with its answer.
pub open spec fn answered(cell: CellView, answer: PermissionAnswer) -> CellView {
    match cell {
        CellView::Permission(prompt) => CellView::Permission(
            PermissionCellView { answer: Some(answer), ..prompt },
        ),
        CellView::Plan(plan) => CellView::Plan(PlanCellView { answer: Some(answer), ..plan }),
        _ => cell,
    }
}

/// The id of the last prompt or plan without an answer.
pub open spec fn open_id(cells: Seq<CellView>) -> Option<Seq<char>>
    decreases cells.len(),
{
    if cells.len() == 0 {
        None
    } else {
        match cells.last() {
            CellView::Permission(prompt) => if prompt.answer is None {
                Some(prompt.id)
            } else {
                open_id(cells.drop_last())
            },
            CellView::Plan(plan) => if plan.answer is None {
                Some(plan.id)
            } else {
                open_id(cells.drop_last())
            },
            _ => open_id(cells.drop_last()),
        }
    }
}

/// Where the last prompt without an answer stands.
pub open spec fn open_prompt(cells: Seq<CellView>) -> Option<int>
    decreases cells.len(),
{
    if cells.len() == 0 {
        None
    } else {
        match cells.last() {
            CellView::Permission(prompt) => if prompt.answer is None {
                Some(cells.len() - 1)
            } else {
                open_prompt(cells.drop_last())
            },
            _ => open_prompt(cells.drop_last()),
        }
    }
}

/// Where the last plan stands.
pub open spec fn last_plan_at(cells: Seq<CellView>) -> Option<int>
    decreases cells.len(),
{
    if cells.len() == 0 {
        None
    } else if cells.last() is Plan {
        Some(cells.len() - 1)
    } else {
        last_plan_at(cells.drop_last())
    }
}

/// A call that was still running, cancelled.
pub open spec fn cancelled(cell: CellView) -> CellView {
    match cell {
        CellView::Tool(tool) => if tool.state == CallState::Running {
            CellView::Tool(
                ToolCellView { state: CallState::Finished(ToolStatus::Cancelled), ..tool },
            )
        } else {
            cell
        },
        _ => cell,
    }
}

/// Whether a cell is a finished call that belongs in the run called `run`.
pub open spec fn grouped(cell: CellView, run: Seq<char>) -> bool {
    match cell {
        CellView::Tool(tool) => tool.state != CallState::Running && verb_of(tool.name).0 == run,
        _ => false,
    }
}

/// Whether the cell at `i` carries the header of a run of finished calls.
pub open spec fn heads_run(cells: Seq<CellView>, i: int) -> bool {
    match cells[i] {
        CellView::Tool(tool) => tool.state != CallState::Running && !(i > 0 && grouped(
            cells[i - 1],
            verb_of(tool.name).0,
        )),
        _ => false,
    }
}

/// The last cell before `n` that carries the header of a run of finished calls.
pub open spec fn last_head(cells: Seq<CellView>, n: int) -> Option<int>
    decreases n,
{
    if n <= 0 {
        None
    } else if heads_run(cells, n - 1) {
        Some(n - 1)
    } else {
        last_head(cells, n - 1)
    }
}

impl TranscriptView {
    /// With one more cell.
    pub open spec fn pushed(self, cell: CellView) -> TranscriptView {
        TranscriptView { cells: self.cells.push(cell), sealed: true, ..self }
    }

    /// Whether the next delta extends the last cell.
    pub open spec fn extends(self) -> bool {
        !self.sealed && self.cells.len() > 0 && self.cells.last() is Assistant
    }

    /// With a run of visible text.
    pub open spec fn with_delta(self, delta: Seq<char>) -> TranscriptView {
        if self.extends() {
            TranscriptView {
                cells: self.cells.drop_last().push(
                    CellView::Assistant(self.cells.last()->Assistant_0 + delta),
                ),
                ..self
            }
        } else {
            TranscriptView {
                cells: self.cells.push(CellView::Assistant(delta)),
                sealed: false,
                ..self
            }
        }
    }

    /// With a call that has started.
    pub open spec fn with_call(self, call: ToolCallView) -> TranscriptView {
        self.pushed(
            CellView::Tool(
                ToolCellView {
                    id: call.id,
                    name: call.name,
                    summary: headlined(call.arguments, self.cwd_prefix),
                    arguments: summarized(call.arguments),
                    state: CallState::Running,
                    detail: None,
                },
            ),
        )
    }

    /// With the outcome of a call.
    pub open spec fn with_result(self, result: ToolResultView) -> TranscriptView {
        match last_running(self.cells, result.id) {
            Some(i) => {
                let tool = self.cells[i]->Tool_0;
                TranscriptView {
                    cells: self.cells.update(
                        i,
                        CellView::Tool(
                            ToolCellView {
                                state: CallState::Finished(result.status),
                                detail: detail_of(tool.name, result.content),
                                ..tool
                            },
                        ),
                    ),
                    ..self
                }
            },
            None => self,
        }
    }

    /// With an answer in place.
    pub open spec fn with_answer(self, id: Seq<char>, answer: PermissionAnswer) -> TranscriptView {
        match last_asking(self.cells, id) {
            Some(i) => TranscriptView {
                cells: self.cells.update(i, answered(self.cells[i], answer)),
                ..self
            },
            None => self,
        }
    }

    /// With the calls of a message, up to its `n`th block, started.
    pub open spec fn with_calls(self, blocks: Seq<BlockView>) -> TranscriptView
        decreases blocks.len(),
    {
        if blocks.len() == 0 {
            self
        } else {
            let before = self.with_calls(blocks.drop_last());
            match blocks.last() {
                BlockView::ToolCall(call) => before.with_call(call),
                _ => before,
            }
        }
    }

    /// With the results of a message in place.
    pub open spec fn with_results(self, blocks: Seq<BlockView>) -> TranscriptView
        decreases blocks.len(),
    {
        if blocks.len() == 0 {
            self
        } else {
            let before = self.with_results(blocks.drop_last());
            match blocks.last() {
                BlockView::ToolResult(result) => before.with_result(result),
                _ => before,
            }
        }
    }

    /// With a message that was said before the session was resumed.
    pub open spec fn with_message(self, message: MessageView) -> TranscriptView {
        let said = text_of(message.content);
        let speaks = trimmed(said).len() > 0;
        match message.role {
            Role::System => self,
            Role::User => if speaks {
                self.pushed(CellView::User(said))
            } else {
                self
            },
            Role::Assistant => (if speaks {
                self.pushed(CellView::Assistant(said))
            } else {
                self
            }).with_calls(message.content),
            Role::Tool => self.with_results(message.content),
        }
    }

    /// With everything that was said before the session was resumed.
    pub open spec fn with_history(self, history: Seq<MessageView>) -> TranscriptView
        decreases history.len(),
    {
        if history.len() == 0 {
            self
        } else {
            self.with_history(history.drop_last()).with_message(history.last())
        }
    }
}

impl Default for Transcript {
    fn default() -> (r: Transcript)
        ensures
            r@ == (TranscriptView {
                cells: Seq::empty(),
                sealed: false,
                cwd_prefix: Seq::empty(),
            }),
    {
        let r = Transcript { cells: Vec::new(), sealed: false, cwd_prefix: Vec::new() };
        assert(r@.cells =~= Seq::empty());
        assert(r@.cwd_prefix =~= Seq::empty());
        r
    }
}

/// Whether a finished call belongs in the run being gathered.
pub fn groups_with(cell: &Cell, run: &str) -> (r: bool)
    ensures
        r == grouped(cell@, run@),
{
    match cell {
        Cell::Tool(tool) => {
            let (name, _) = verb(tool.name.as_str());
            tool.state != CallState::Running && text::eq(name.as_str(), run)
        },
        _ => false,
    }
}

impl Transcript {
    /// A transcript that re-roots tool paths for display against `cwd` rather than the
    /// workspace root. Where no root is known, or `cwd` lies outside it, paths still display,
    /// workspace-relative.
    pub fn with_cwd(cwd: &AbsPath, root: Option<&AbsPath>) -> (r: Transcript)
        ensures
            r@.cells == Seq::<CellView>::empty(),
            !r@.sealed,
            r@.cwd_prefix == (match root {
                Some(root) => if contained(cwd@, root@) {
                    filled(split_on(below(cwd@, root@), '/'))
                } else {
                    Seq::empty()
                },
                None => Seq::empty(),
            }),
    {
        let mut r = Transcript { cells: Vec::new(), sealed: false, cwd_prefix: Vec::new() };
        assert(cell_views(r.cells@) =~= Seq::empty());
        assert(texts(r.cwd_prefix@) =~= Seq::empty());
        if let Some(root) = root {
            if let Ok(rel) = cwd.strip_root(root) {
                r.cwd_prefix = filled_pieces(rel.as_str());
            }
        }
        r
    }

    /// Drops everything shown so far, keeping the path rewrite in force.
    ///
    /// A person clearing the view is not asking the agent to forget: only the on-screen
    /// record resets.
    pub fn clear(&mut self)
        ensures
            final(self)@ == (TranscriptView {
                cells: Seq::empty(),
                sealed: false,
                ..old(self)@
            }),
    {
        self.cells.clear();
        self.sealed = false;
        assert(self@.cells =~= Seq::empty());
    }

    /// The cells, oldest first.
    pub fn cells(&self) -> (r: &Vec<Cell>)
        ensures
            cell_views(r@) == self@.cells,
    {
        &self.cells
    }

    pub fn len(&self) -> (r: usize)
        ensures
            r == self@.cells.len(),
    {
        self.cells.len()
    }

    pub fn is_empty(&self) -> (r: bool)
        ensures
            r == (self@.cells.len() == 0),
    {
        self.cells.len() == 0
    }

    /// The newest cell.
    pub fn last(&self) -> (r: Option<&Cell>)
        ensures
            match r {
                Some(cell) => self@.cells.len() > 0 && cell@ == self@.cells.last(),
                None => self@.cells.len() == 0,
            },
    {
        if self.cells.len() == 0 {
            None
        } else {
            assert(self@.cells.last() == self.cells@[self.cells.len() - 1]@);
            Some(&self.cells[self.cells.len() - 1])
        }
    }

    /// Whether a person has sent anything yet.
    pub fn has_user_message(&self) -> (r: bool)
        ensures
            r == exists|i: int| 0 <= i < self@.cells.len() && #[trigger] self@.cells[i] is User,
    {
        let mut i: usize = 0;
        while i < self.cells.len()
            invariant
                i <= self.cells.len(),
                forall|k: int| 0 <= k < i ==> !(#[trigger] self@.cells[k] is User),
            decreases self.cells.len() - i,
        {
            assert(self@.cells[i as int] == self.cells@[i as int]@);
            if let Cell::User(_) = &self.cells[i] {
                return true;
            }
            i += 1;
        }
        false
    }

    /// Puts a cell in the scrollback.
    pub fn push(&mut self, cell: Cell)
        ensures
            final(self)@ == old(self)@.pushed(cell@),
    {
        self.cells.push(cell);
        self.sealed = true;
        assert(self@.cells =~= old(self)@.cells.push(cell@));
    }

    /// Appends visible text, growing the assistant message already in progress.
    ///
    /// One turn of prose is one cell: a delta per cell would make wrapping and copy-out wrong
    /// for anyone whose provider chunks by token.
    pub fn push_text_delta(&mut self, delta: &str)
        ensures
            final(self)@ == old(self)@.with_delta(delta@),
    {
        let ghost view = self@;
        let mut whole: Option<String> = None;
        if !self.sealed && self.cells.len() > 0 {
            assert(view.cells.last() == self.cells@[self.cells.len() - 1]@);
            if let Cell::Assistant(text) = &self.cells[self.cells.len() - 1] {
                whole = Some(text::concat(text.as_str(), delta));
            }
        }
        match whole {
            Some(text) => {
                let last: usize = self.cells.len() - 1;
                self.cells.set(last, Cell::Assistant(text));
                assert(self@.cells =~= view.with_delta(delta@).cells);
            },
            None => {
                self.cells.push(Cell::Assistant(text::copy(delta)));
                self.sealed = false;
                assert(self@.cells =~= view.with_delta(delta@).cells);
            },
        }
    }

    /// Closes the open prose cell so the next delta starts a fresh one.
    ///
    /// Called at turn boundaries and whenever a tool interrupts, which is what keeps two
    /// separate answers from fusing into one paragraph.
    pub fn seal(&mut self)
        ensures
            final(self)@ == (TranscriptView { sealed: true, ..old(self)@ }),
    {
        self.sealed = true;
    }

    /// Opens a cell for a call.
    pub fn start_tool(&mut self, call: &ToolCall)
        ensures
            final(self)@ == old(self)@.with_call(call@),
    {
        let summary = headline(&call.arguments, &self.cwd_prefix);
        let arguments = summarize_arguments(&call.arguments);
        self.push(
            Cell::Tool(
                ToolCell {
                    id: call.id.clone(),
                    name: call.name.clone(),
                    summary,
                    arguments,
                    state: CallState::Running,
                    detail: None,
                },
            ),
        );
    }

    /// Revises the cell the call opened. Says whether one was found.
    pub fn finish_tool(&mut self, result: &ToolResult) -> (r: bool)
        ensures
            final(self)@ == old(self)@.with_result(result@),
            r == last_running(old(self)@.cells, result@.id) is Some,
    {
        let ghost view = self@;
        let mut n: usize = self.cells.len();
        assert(view.cells.take(n as int) =~= view.cells);
        while n > 0
            invariant
                n <= self.cells.len(),
                view == self@,
                view == old(self)@,
                last_running(view.cells, result@.id) == last_running(
                    view.cells.take(n as int),
                    result@.id,
                ),
            decreases n,
        {
            let i: usize = n - 1;
            assert(view.cells.take(n as int).last() == self.cells@[i as int]@);
            assert(view.cells.take(n as int).drop_last() =~= view.cells.take(i as int));
            let mut found = false;
            if let Cell::Tool(tool) = &self.cells[i] {
                found = tool.state == CallState::Running && text::eq(
                    tool.id.as_str(),
                    result.id.as_str(),
                );
            }
            if found {
                if let Cell::Tool(tool) = &self.cells[i] {
                    let revised = ToolCell {
                        id: tool.id.clone(),
                        name: tool.name.clone(),
                        summary: tool.summary.clone(),
                        arguments: tool.arguments.clone(),
                        state: CallState::Finished(result.status),
                        detail: detail_line(tool.name.as_str(), &result.content),
                    };
                    self.cells.set(i, Cell::Tool(revised));
                    assert(self@.cells =~= view.with_result(result@).cells);
                }
                return true;
            }
            n = i;
        }
        false
    }

    /// Puts an approval request in the scrollback.
    pub fn request_permission(&mut self, id: &str, call: &ToolCall, reason: &str)
        ensures
            final(self)@ == old(self)@.pushed(
                CellView::Permission(
                    PermissionCellView {
                        id: id@,
                        name: call@.name,
                        summary: headlined(call@.arguments, old(self)@.cwd_prefix),
                        reason: reason@,
                        answer: None,
                    },
                ),
            ),
    {
        let summary = headline(&call.arguments, &self.cwd_prefix);
        self.push(
            Cell::Permission(
                PermissionCell {
                    id: text::copy(id),
                    name: call.name.clone(),
                    summary,
                    reason: text::copy(reason),
                    answer: None,
                },
            ),
        );
    }

    /// Puts a proposed plan in the scrollback, where it stays.
    pub fn request_plan(&mut self, id: &str, text: &str, path: Option<String>)
        ensures
            final(self)@ == old(self)@.pushed(
                CellView::Plan(
                    PlanCellView { id: id@, text: text@, path: opt(path), answer: None },
                ),
            ),
    {
        self.push(
            Cell::Plan(
                PlanCell { id: text::copy(id), text: text::copy(text), path, answer: None },
            ),
        );
    }

    /// Records the answer in place, so the scrollback shows what was decided.
    pub fn answer_permission(&mut self, id: &str, answer: PermissionAnswer)
        ensures
            final(self)@ == old(self)@.with_answer(id@, answer),
    {
        let ghost view = self@;
        let mut n: usize = self.cells.len();
        assert(view.cells.take(n as int) =~= view.cells);
        while n > 0
            invariant
                n <= self.cells.len(),
                view == self@,
                view == old(self)@,
                last_asking(view.cells, id@) == last_asking(view.cells.take(n as int), id@),
            decreases n,
        {
            let i: usize = n - 1;
            assert(view.cells.take(n as int).last() == self.cells@[i as int]@);
            assert(view.cells.take(n as int).drop_last() =~= view.cells.take(i as int));
            let mut revised: Option<Cell> = None;
            match &self.cells[i] {
                Cell::Permission(prompt) => {
                    if text::eq(prompt.id.as_str(), id) {
                        revised = Some(
                            Cell::Permission(
                                PermissionCell {
                                    id: prompt.id.clone(),
                                    name: prompt.name.clone(),
                                    summary: prompt.summary.clone(),
                                    reason: prompt.reason.clone(),
                                    answer: Some(answer),
                                },
                            ),
                        );
                    }
                },
                Cell::Plan(plan) => {
                    if text::eq(plan.id.as_str(), id) {
                        let path = match &plan.path {
                            Some(path) => Some(path.clone()),
                            None => None,
                        };
                        revised = Some(
                            Cell::Plan(
                                PlanCell {
                                    id: plan.id.clone(),
                                    text: plan.text.clone(),
                                    path,
                                    answer: Some(answer),
                                },
                            ),
                        );
                    }
                },
                _ => {},
            }
            if let Some(cell) = revised {
                self.cells.set(i, cell);
                assert(self@.cells =~= view.with_answer(id@, answer).cells);
                return ;
            }
            n = i;
        }
    }

    /// The id of whatever is blocking the turn: a tool prompt or a plan.
    pub fn open_permission_id(&self) -> (r: Option<String>)
        ensures
            opt(r) == open_id(self@.cells),
    {
        let ghost cells = self@.cells;
        let mut n: usize = self.cells.len();
        assert(cells.take(n as int) =~= cells);
        while n > 0
            invariant
                n <= self.cells.len(),
                cells == self@.cells,
                open_id(cells) == open_id(cells.take(n as int)),
            decreases n,
        {
            let i: usize = n - 1;
            assert(cells.take(n as int).last() == self.cells@[i as int]@);
            assert(cells.take(n as int).drop_last() =~= cells.take(i as int));
            match &self.cells[i] {
                Cell::Permission(prompt) => {
                    if prompt.answer.is_none() {
                        return Some(prompt.id.clone());
                    }
                },
                Cell::Plan(plan) => {
                    if plan.answer.is_none() {
                        return Some(plan.id.clone());
                    }
                },
                _ => {},
            }
            n = i;
        }
        None
    }

    /// The last plan this session saw, answered or not.
    pub fn last_plan(&self) -> (r: Option<&PlanCell>)
        ensures
            match last_plan_at(self@.cells) {
                Some(i) => r is Some && self@.cells[i] == CellView::Plan(r->0@),
                None => r is None,
            },
    {
        let ghost cells = self@.cells;
        let mut n: usize = self.cells.len();
        assert(cells.take(n as int) =~= cells);
        while n > 0
            invariant
                n <= self.cells.len(),
                cells == self@.cells,
                last_plan_at(cells) == last_plan_at(cells.take(n as int)),
            decreases n,
        {
            let i: usize = n - 1;
            assert(cells.take(n as int).last() == self.cells@[i as int]@);
            assert(cells.take(n as int).drop_last() =~= cells.take(i as int));
            if let Cell::Plan(plan) = &self.cells[i] {
                return Some(plan);
            }
            n = i;
        }
        None
    }

    /// The prompt currently blocking the turn, if any.
    pub fn open_permission(&self) -> (r: Option<&PermissionCell>)
        ensures
            match open_prompt(self@.cells) {
                Some(i) => r is Some && self@.cells[i] == CellView::Permission(r->0@),
                None => r is None,
            },
    {
        let ghost cells = self@.cells;
        let mut n: usize = self.cells.len();
        assert(cells.take(n as int) =~= cells);
        while n > 0
            invariant
                n <= self.cells.len(),
                cells == self@.cells,
                open_prompt(cells) == open_prompt(cells.take(n as int)),
            decreases n,
        {
            let i: usize = n - 1;
            assert(cells.take(n as int).last() == self.cells@[i as int]@);
            assert(cells.take(n as int).drop_last() =~= cells.take(i as int));
            if let Cell::Permission(prompt) = &self.cells[i] {
                if prompt.answer.is_none() {
                    return Some(prompt);
                }
            }
            n = i;
        }
        None
    }

    /// Starts the calls of a message.
    fn start_calls(&mut self, blocks: &Vec<ContentBlock>)
        ensures
            final(self)@ == old(self)@.with_calls(block_views(blocks@)),
    {
        let ghost views = block_views(blocks@);
        let ghost view = self@;
        let mut i: usize = 0;
        proof {
            lemma_block_views(blocks@);
            assert(views.take(0) =~= Seq::empty());
        }
        while i < blocks.len()
            invariant
                i <= blocks.len(),
                views.len() == blocks.len(),
                forall|k: int|
                    0 <= k < blocks.len() ==> #[trigger] views[k] == block_view(blocks@[k]),
                self@ == view.with_calls(views.take(i as int)),
            decreases blocks.len() - i,
        {
            assert(views.take(i as int + 1).drop_last() =~= views.take(i as int));
            assert(views[i as int] == block_view(blocks@[i as int]));
            if let ContentBlock::ToolCall(call) = &blocks[i] {
                self.start_tool(call);
            }
            i += 1;
        }
        assert(views.take(i as int) =~= views);
    }

    /// Finishes the calls that a message has the results of.
    fn finish_calls(&mut self, blocks: &Vec<ContentBlock>)
        ensures
            final(self)@ == old(self)@.with_results(block_views(blocks@)),
    {
        let ghost views = block_views(blocks@);
        let ghost view = self@;
        let mut i: usize = 0;
        proof {
            lemma_block_views(blocks@);
            assert(views.take(0) =~= Seq::empty());
        }
        while i < blocks.len()
            invariant
                i <= blocks.len(),
                views.len() == blocks.len(),
                forall|k: int|
                    0 <= k < blocks.len() ==> #[trigger] views[k] == block_view(blocks@[k]),
                self@ == view.with_results(views.take(i as int)),
            decreases blocks.len() - i,
        {
            assert(views.take(i as int + 1).drop_last() =~= views.take(i as int));
            assert(views[i as int] == block_view(blocks@[i as int]));
            if let ContentBlock::ToolResult(result) = &blocks[i] {
                self.finish_tool(result);
            }
            i += 1;
        }
        assert(views.take(i as int) =~= views);
    }

    /// Rebuilds the visible transcript from a resumed session's history.
    ///
    /// A tool call is drawn from the assistant message that made it and finished by the
    /// result that answered it, exactly as the live path does: a call whose result never made
    /// it into the log stays visibly unfinished rather than being drawn as a success nobody
    /// recorded.
    pub fn replay(&mut self, history: &Vec<Message>)
        ensures
            final(self)@ == (TranscriptView {
                sealed: true,
                ..old(self)@.with_history(message_views(history@))
            }),
    {
        let ghost view = self@;
        let ghost all = message_views(history@);
        let mut i: usize = 0;
        assert(all.take(0) =~= Seq::empty());
        while i < history.len()
            invariant
                i <= history.len(),
                all == message_views(history@),
                self@ == view.with_history(all.take(i as int)),
            decreases history.len() - i,
        {
            assert(all.take(i as int + 1).drop_last() =~= all.take(i as int));
            assert(all[i as int] == history@[i as int]@);
            let message = &history[i];
            match message.role {
                Role::System => {},
                Role::User => {
                    let said = joined_text(&message.content);
                    let visible = text::trim(said.as_str());
                    if visible.as_str().unicode_len() > 0 {
                        self.push(Cell::User(said));
                    }
                },
                Role::Assistant => {
                    let said = joined_text(&message.content);
                    let visible = text::trim(said.as_str());
                    if visible.as_str().unicode_len() > 0 {
                        self.push(Cell::Assistant(said));
                    }
                    self.start_calls(&message.content);
                },
                Role::Tool => {
                    self.finish_calls(&message.content);
                },
            }
            i += 1;
        }
        assert(all.take(i as int) =~= all);
        self.seal();
    }

    /// The newest thing on screen that can be opened, if there is one: the first call of the
    /// last run of finished calls carries its header.
    pub fn last_expandable(&self) -> (r: Option<usize>)
        ensures
            match last_head(self@.cells, self@.cells.len() as int) {
                Some(i) => r == Some(i as usize) && 0 <= i < self@.cells.len(),
                None => r is None,
            },
    {
        let ghost cells = self@.cells;
        let mut n: usize = self.cells.len();
        while n > 0
            invariant
                n <= self.cells.len(),
                cells == self@.cells,
                last_head(cells, cells.len() as int) == last_head(cells, n as int),
            decreases n,
        {
            let i: usize = n - 1;
            assert(cells[i as int] == self.cells@[i as int]@);
            if let Cell::Tool(tool) = &self.cells[i] {
                if tool.state != CallState::Running {
                    let (run, _) = verb(tool.name.as_str());
                    let mut follows = false;
                    if i > 0 {
                        assert(cells[i - 1] == self.cells@[i - 1]@);
                        follows = groups_with(&self.cells[i - 1], run.as_str());
                    }
                    if !follows {
                        return Some(i);
                    }
                }
            }
            n = i;
        }
        None
    }

    /// Marks every still-running call cancelled.
    ///
    /// A cancelled turn may never deliver the end of a call, and a spinner that never stops
    /// reads as a hang rather than as the abort it was.
    pub fn cancel_running_tools(&mut self)
        ensures
            final(self)@ == (TranscriptView {
                cells: old(self)@.cells.map_values(|c: CellView| cancelled(c)),
                ..old(self)@
            }),
    {
        let ghost view = self@;
        let mut i: usize = 0;
        while i < self.cells.len()
            invariant
                i <= self.cells.len(),
                self.cells.len() == view.cells.len(),
                self@.sealed == view.sealed,
                self@.cwd_prefix == view.cwd_prefix,
                forall|k: int| 0 <= k < i ==> #[trigger] self@.cells[k] == cancelled(view.cells[k]),
                forall|k: int|
                    i <= k < view.cells.len() ==> #[trigger] self@.cells[k] == view.cells[k],
            decreases self.cells.len() - i,
        {
            let ghost before = self@.cells;
            assert(before[i as int] == self.cells@[i as int]@);
            let mut running = false;
            if let Cell::Tool(tool) = &self.cells[i] {
                running = tool.state == CallState::Running;
            }
            if running {
                if let Cell::Tool(tool) = &self.cells[i] {
                    let detail = match &tool.detail {
                        Some(detail) => Some(detail.clone()),
                        None => None,
                    };
                    let revised = ToolCell {
                        id: tool.id.clone(),
                        name: tool.name.clone(),
                        summary: tool.summary.clone(),
                        arguments: tool.arguments.clone(),
                        state: CallState::Finished(ToolStatus::Cancelled),
                        detail,
                    };
                    self.cells.set(i, Cell::Tool(revised));
                    assert(self@.cells =~= before.update(i as int, cancelled(before[i as int])));
                }
            }
            i += 1;
        }
        assert(self@.cells =~= view.cells.map_values(|c: CellView| cancelled(c)));
    }
}

// Laws.

/// A result revises the call it answers: no result adds a cell or takes one away.
pub proof fn a_result_revises_its_call(view: TranscriptView, result: ToolResultView)
    ensures
        view.with_result(result).cells.len() == view.cells.len(),
        last_running(view.cells, result.id) matches Some(i) ==> 0 <= i < view.cells.len()
            && (view.with_result(result).cells[i] matches CellView::Tool(tool) && tool.state
            == CallState::Finished(result.status) && tool.id == result.id),
{
    lemma_last_running(view.cells, result.id);
}

pub(crate) proof fn lemma_last_running(cells: Seq<CellView>, id: Seq<char>)
    ensures
        match last_running(cells, id) {
            Some(i) => 0 <= i < cells.len() && (cells[i] matches CellView::Tool(tool) && tool.id
                == id && tool.state == CallState::Running),
            None => forall|k: int|
                0 <= k < cells.len() ==> !(#[trigger] cells[k] matches CellView::Tool(tool)
                    && tool.id == id && tool.state == CallState::Running),
        },
    decreases cells.len(),
{
    if cells.len() > 0 {
        lemma_last_running(cells.drop_last(), id);
        if last_running(cells, id) is None {
            assert forall|k: int| 0 <= k < cells.len() implies !(
            #[trigger] cells[k] matches CellView::Tool(tool) && tool.id == id && tool.state
                == CallState::Running) by {
                if k < cells.len() - 1 {
                    assert(cells[k] == cells.drop_last()[k]);
                }
            }
        }
    }
}

/// A call that has started and ended is shown as ended.
pub proof fn a_started_call_is_finished_by_its_result(
    view: TranscriptView,
    call: ToolCallView,
    result: ToolResultView,
)
    requires
        result.id == call.id,
    ensures
        view.with_call(call).with_result(result).cells.len() == view.cells.len() + 1,
        view.with_call(call).with_result(result).cells.last() matches CellView::Tool(tool)
            && tool.state == CallState::Finished(result.status) && tool.detail == detail_of(
            call.name,
            result.content,
        ),
{
}

/// One answer is one cell: two deltas in a row read as one.
pub proof fn deltas_grow_one_cell(view: TranscriptView, a: Seq<char>, b: Seq<char>)
    ensures
        view.with_delta(a).with_delta(b) == view.with_delta(a + b),
{
    let one = view.with_delta(a);
    assert(one.extends());
    if view.extends() {
        let said = view.cells.last()->Assistant_0;
        assert(said + a + b =~= said + (a + b));
        assert(one.with_delta(b).cells =~= view.with_delta(a + b).cells);
    } else {
        assert(one.with_delta(b).cells =~= view.with_delta(a + b).cells);
    }
}

/// Once a cell has been sealed, the next delta opens a new one.
pub proof fn a_sealed_cell_is_not_extended(view: TranscriptView, delta: Seq<char>)
    requires
        view.sealed,
    ensures
        view.with_delta(delta).cells == view.cells.push(CellView::Assistant(delta)),
{
}

/// Once a turn has been cancelled, no call is left running.
pub proof fn no_call_outlives_a_cancelled_turn(cells: Seq<CellView>, i: int)
    requires
        0 <= i < cells.len(),
    ensures
        !(cells.map_values(|c: CellView| cancelled(c))[i] matches CellView::Tool(tool)
            && tool.state == CallState::Running),
{
}

/// Where an answer lands, the question is closed and everything else stays.
pub proof fn an_answer_lands_in_place(
    view: TranscriptView,
    id: Seq<char>,
    answer: PermissionAnswer,
    i: int,
)
    requires
        0 <= i < view.cells.len(),
    ensures
        view.with_answer(id, answer).cells.len() == view.cells.len(),
        last_asking(view.cells, id) != Some(i) ==> view.with_answer(id, answer).cells[i]
            == view.cells[i],
        last_asking(view.cells, id) == Some(i) ==> {
            &&& asks(view.cells[i], id)
            &&& view.with_answer(id, answer).cells[i] == answered(view.cells[i], answer)
        },
{
    lemma_last_asking(view.cells, id);
}

proof fn lemma_last_asking(cells: Seq<CellView>, id: Seq<char>)
    ensures
        last_asking(cells, id) matches Some(i) ==> 0 <= i < cells.len() && asks(cells[i], id),
    decreases cells.len(),
{
    if cells.len() > 0 {
        lemma_last_asking(cells.drop_last(), id);
    }
}

/// A path below the directory a session was launched from loses that directory.
pub proof fn a_path_under_cwd_loses_it(parts: Seq<Seq<char>>, prefix: Seq<Seq<char>>)
    requires
        prefix.len() <= parts.len(),
        parts.take(prefix.len() as int) == prefix,
    ensures
        rerooted_pieces(parts, prefix) == parts.skip(prefix.len() as int),
{
    lemma_common_prefix(parts, prefix);
    assert(rerooted_pieces(parts, prefix) =~= parts.skip(prefix.len() as int));
}

proof fn lemma_common_prefix(parts: Seq<Seq<char>>, prefix: Seq<Seq<char>>)
    requires
        prefix.len() <= parts.len(),
        parts.take(prefix.len() as int) == prefix,
    ensures
        common(parts, prefix) == prefix.len(),
    decreases parts.len(),
{
    if prefix.len() > 0 {
        assert(parts[0] == parts.take(prefix.len() as int)[0]);
        assert(parts.drop_first().take(prefix.len() - 1) =~= prefix.drop_first());
        lemma_common_prefix(parts.drop_first(), prefix.drop_first());
    }
}

/// A summary is one line of at most `limit` characters.
pub proof fn a_summary_fits_one_line(s: Seq<char>, limit: nat)
    requires
        limit > 0,
    ensures
        flattened(s, limit).len() <= limit,
        !flattened(s, limit).contains('\n'),
{
    let words = words_of(s);
    lemma_words_are_visible(s);
    reveal_strlit(" ");
    lemma_joined_visible(words);
    let flat = joined(words, " "@);
    if flat.len() > limit {
        let kept = flat.take(limit - 1);
        assert forall|i: int| 0 <= i < flattened(s, limit).len() implies flattened(s, limit)[i]
            != '\n' by {
            if i < limit - 1 {
                assert(kept[i] == flat[i]);
            }
        }
    }
}

proof fn lemma_words_are_visible(s: Seq<char>)
    ensures
        forall|i: int, k: int|
            0 <= i < words_of(s).len() && 0 <= k < words_of(s)[i].len() ==> !text::white_space(
                #[trigger] words_of(s)[i][k],
            ),
        s.len() > 0 && !text::white_space(s.last()) ==> words_of(s).len() > 0,
    decreases s.len(),
{
    if s.len() > 0 {
        let init = s.drop_last();
        lemma_words_are_visible(init);
        let before = words_of(init);
        let all = words_of(s);
        assert(s.len() > 1 ==> init.last() == s[s.len() - 2]);
        assert forall|i: int, k: int|
            0 <= i < all.len() && 0 <= k < all[i].len() implies !text::white_space(
            #[trigger] all[i][k],
        ) by {
            if text::white_space(s.last()) {
                assert(!text::white_space(before[i][k]));
            } else if s.len() == 1 || text::white_space(s[s.len() - 2]) {
                if i < before.len() {
                    assert(!text::white_space(before[i][k]));
                }
            } else {
                if i < before.len() - 1 {
                    assert(!text::white_space(before[i][k]));
                } else if k < before.last().len() {
                    assert(!text::white_space(before[i][k]));
                }
            }
        }
    }
}

proof fn lemma_joined_visible(words: Seq<Seq<char>>)
    requires
        forall|i: int, k: int|
            0 <= i < words.len() && 0 <= k < words[i].len() ==> !text::white_space(
                #[trigger] words[i][k],
            ),
        " "@ =~= seq![' '],
    ensures
        forall|k: int|
            0 <= k < joined(words, " "@).len() ==> #[trigger] joined(words, " "@)[k] != '\n',
    decreases words.len(),
{
    if words.len() > 1 {
        let init = words.drop_last();
        assert forall|i: int, k: int|
            0 <= i < init.len() && 0 <= k < init[i].len() implies !text::white_space(
            #[trigger] init[i][k],
        ) by {
            assert(init[i][k] == words[i][k]);
        }
        lemma_joined_visible(init);
        let all = joined(words, " "@);
        let before = joined(init, " "@);
        assert forall|k: int| 0 <= k < all.len() implies #[trigger] all[k] != '\n' by {
            if k < before.len() {
                assert(all[k] == before[k]);
            } else if k == before.len() {
                assert(all[k] == ' ');
            } else {
                let last = words[words.len() - 1];
                assert(all[k] == last[k - before.len() - 1]);
                assert(!text::white_space(words[words.len() - 1][k - before.len() - 1]));
            }
        }
    } else if words.len() == 1 {
        assert forall|k: int| 0 <= k < words[0].len() implies #[trigger] joined(
            words,
            " "@,
        )[k] != '\n' by {
            assert(!text::white_space(words[0][k]));
        }
    }
}

/// A summary leaves out nothing but white space and what does not fit: it is the text's words with
/// a space between each two, cut behind as many characters as there is room for.
pub proof fn a_summary_is_the_words_that_fit(s: Seq<char>, limit: nat) -> (flat: Seq<char>)
    requires
        limit > 0,
    ensures
        text::seen(flat) == text::seen(s),
        flat.len() <= limit ==> flattened(s, limit) == flat,
        flat.len() > limit ==> flattened(s, limit) == flat.take(limit - 1) + seq!['…'],
        words_of(flat) == words_of(s),
{
    let words = words_of(s);
    let flat = joined(words, " "@);
    reveal_strlit(" ");
    assert(" "@ =~= seq![' ']);
    text::words_are_all_that_is_seen(s);
    lemma_joined_words(words);
    if flat.len() > limit {
        assert(flat.take(limit - 1).push('…') =~= flat.take(limit - 1) + seq!['…']);
    }
    flat
}

/// Words with a space between each two read back as those words.
proof fn lemma_joined_words(words: Seq<Seq<char>>)
    requires
        " "@ == seq![' '],
        forall|i: int|
            0 <= i < words.len() ==> {
                &&& (#[trigger] words[i]).len() > 0
                &&& forall|k: int|
                    0 <= k < words[i].len() ==> !text::white_space(#[trigger] words[i][k])
            },
    ensures
        text::seen(joined(words, " "@)) == words.flatten(),
        words_of(joined(words, " "@)) == words,
        words.len() > 0 ==> joined(words, " "@).len() > 0 && !text::white_space(
            joined(words, " "@).last(),
        ),
    decreases words.len(),
{
    text::lemma_seen_nothing();
    if words.len() == 0 {
        assert(words_of(joined(words, " "@)) =~= words);
    } else {
        let init = words.drop_last();
        let last = words[words.len() - 1];
        assert forall|i: int| 0 <= i < init.len() implies {
            &&& (#[trigger] init[i]).len() > 0
            &&& forall|k: int| 0 <= k < init[i].len() ==> !text::white_space(#[trigger] init[i][k])
        } by {
            assert(init[i] == words[i]);
        }
        lemma_joined_words(init);
        init.lemma_flatten_push(last);
        assert(init.push(last) =~= words);
        let head = if words.len() == 1 {
            Seq::empty()
        } else {
            joined(init, " "@).push(' ')
        };
        if words.len() == 1 {
            assert(head + last =~= joined(words, " "@));
            assert(words_of(head) =~= init);
        } else {
            assert(head + last =~= joined(words, " "@));
            text::lemma_seen_push(joined(init, " "@), ' ');
            assert(head.drop_last() =~= joined(init, " "@));
            assert(words_of(head) =~= init);
        }
        lemma_word_behind(head, last);
        assert(words_of(joined(words, " "@)) =~= words);
        assert(joined(words, " "@).last() == last.last());
        assert(!text::white_space(last[last.len() - 1]));
    }
}

/// A visible run behind white space is a word more.
proof fn lemma_word_behind(head: Seq<char>, word: Seq<char>)
    requires
        head.len() == 0 || text::white_space(head.last()),
        word.len() > 0,
        forall|k: int| 0 <= k < word.len() ==> !text::white_space(#[trigger] word[k]),
    ensures
        words_of(head + word) == words_of(head).push(word),
        text::seen(head + word) == text::seen(head) + word,
    decreases word.len(),
{
    text::lemma_seen_add(head, word);
    lemma_all_seen(word);
    let all = head + word;
    let n = word.len() as int;
    let last = word.last();
    let less = word.drop_last();
    lemma_last_back(word);
    assert(all.drop_last() =~= head + less);
    assert(all[all.len() - 1] == last);
    assert(!text::white_space(word[n - 1]));
    if n == 1 {
        assert(head + less =~= head);
        assert(word =~= seq![last]);
        if head.len() > 0 {
            assert(all[all.len() - 2] == head[head.len() - 1]);
        }
    } else {
        assert forall|k: int| 0 <= k < less.len() implies !text::white_space(
            #[trigger] less[k],
        ) by {
            assert(less[k] == word[k]);
        }
        lemma_word_behind(head, less);
        assert(all[all.len() - 2] == word[n - 2]);
        assert(words_of(head).push(less).drop_last() =~= words_of(head));
    }
}

proof fn lemma_last_back(s: Seq<char>)
    requires
        s.len() > 0,
    ensures
        s.drop_last().push(s.last()) == s,
{
    assert(s.drop_last().push(s.last()) =~= s);
}

/// All of a visible run can be seen.
proof fn lemma_all_seen(word: Seq<char>)
    requires
        forall|k: int| 0 <= k < word.len() ==> !text::white_space(#[trigger] word[k]),
    ensures
        text::seen(word) == word,
    decreases word.len(),
{
    text::lemma_seen_nothing();
    if word.len() == 0 {
        assert(word =~= Seq::<char>::empty());
    } else {
        let less = word.drop_last();
        assert forall|k: int| 0 <= k < less.len() implies !text::white_space(
            #[trigger] less[k],
        ) by {
            assert(less[k] == word[k]);
        }
        lemma_all_seen(less);
        text::lemma_seen_push(less, word[word.len() - 1]);
        assert(less.push(word[word.len() - 1]) =~= word);
    }
}

/// A path reads from where the session was launched: up from there to the last directory that both
/// share, and down again. Nothing more is climbed than has to be.
pub proof fn a_path_reads_from_the_launch_directory(
    parts: Seq<Seq<char>>,
    prefix: Seq<Seq<char>>,
) -> (n: int)
    ensures
        0 <= n <= parts.len(),
        n <= prefix.len(),
        parts.take(n) == prefix.take(n),
        n < parts.len() && n < prefix.len() ==> parts[n] != prefix[n],
        rerooted_pieces(parts, prefix).len() == prefix.len() - n + parts.len() - n,
        forall|i: int|
            0 <= i < prefix.len() - n ==> #[trigger] rerooted_pieces(parts, prefix)[i] == ".."@,
        rerooted_pieces(parts, prefix).skip(prefix.len() - n) == parts.skip(n),
{
    lemma_common(parts, prefix);
    lemma_common_most(parts, prefix);
    let n = common(parts, prefix) as int;
    assert(rerooted_pieces(parts, prefix).skip(prefix.len() - n) =~= parts.skip(n));
    n
}

proof fn lemma_common_most(a: Seq<Seq<char>>, b: Seq<Seq<char>>)
    ensures
        common(a, b) < a.len() && common(a, b) < b.len() ==> a[common(a, b) as int] != b[common(
            a,
            b,
        ) as int],
    decreases a.len(),
{
    if a.len() > 0 && b.len() > 0 && a[0] == b[0] {
        lemma_common_most(a.drop_first(), b.drop_first());
    }
}

/// Whether a cell is a running call with this id.
pub open spec fn runs_under(cell: CellView, id: Seq<char>) -> bool {
    cell matches CellView::Tool(tool) && tool.id == id && tool.state == CallState::Running
}

/// A result closes the last call that is running under its id, and changes nothing else: the cell
/// keeps its id, its name and its arguments. Where none is running, nothing happens.
pub proof fn a_result_closes_the_last_call_under_its_id(view: TranscriptView, result: ToolResultView)
    ensures
        ({
            let next = view.with_result(result);
            &&& next.sealed == view.sealed
            &&& next.cwd_prefix == view.cwd_prefix
            &&& next.cells.len() == view.cells.len()
            &&& forall|i: int|
                0 <= i < view.cells.len() ==> {
                    let last = runs_under(view.cells[i], result.id) && forall|j: int|
                        i < j < view.cells.len() ==> !runs_under(view.cells[j], result.id);
                    if last {
                        let was = view.cells[i]->Tool_0;
                        &&& #[trigger] next.cells[i] is Tool
                        &&& next.cells[i]->Tool_0.id == was.id
                        &&& next.cells[i]->Tool_0.name == was.name
                        &&& next.cells[i]->Tool_0.summary == was.summary
                        &&& next.cells[i]->Tool_0.arguments == was.arguments
                        &&& next.cells[i]->Tool_0.state == CallState::Finished(result.status)
                        &&& next.cells[i]->Tool_0.detail == detail_of(was.name, result.content)
                    } else {
                        next.cells[i] == view.cells[i]
                    }
                }
        }),
{
    lemma_last_running(view.cells, result.id);
    lemma_none_running_behind(view.cells, result.id);
    let next = view.with_result(result);
    assert forall|i: int| 0 <= i < view.cells.len() implies {
        let last = runs_under(view.cells[i], result.id) && forall|j: int|
            i < j < view.cells.len() ==> !runs_under(view.cells[j], result.id);
        if last {
            let was = view.cells[i]->Tool_0;
            &&& #[trigger] next.cells[i] is Tool
            &&& next.cells[i]->Tool_0.id == was.id
            &&& next.cells[i]->Tool_0.name == was.name
            &&& next.cells[i]->Tool_0.summary == was.summary
            &&& next.cells[i]->Tool_0.arguments == was.arguments
            &&& next.cells[i]->Tool_0.state == CallState::Finished(result.status)
            &&& next.cells[i]->Tool_0.detail == detail_of(was.name, result.content)
        } else {
            next.cells[i] == view.cells[i]
        }
    } by {
        match last_running(view.cells, result.id) {
            Some(k) => {
                assert(runs_under(view.cells[k], result.id));
                if i < k {
                } else if i > k {
                    assert(!runs_under(view.cells[i], result.id));
                }
            },
            None => {
                assert(!runs_under(view.cells[i], result.id));
            },
        }
    }
}

proof fn lemma_none_running_behind(cells: Seq<CellView>, id: Seq<char>)
    ensures
        last_running(cells, id) matches Some(i) ==> forall|j: int|
            i < j < cells.len() ==> !runs_under(#[trigger] cells[j], id),
    decreases cells.len(),
{
    if cells.len() > 0 {
        let init = cells.drop_last();
        lemma_none_running_behind(init, id);
        lemma_last_running(cells, id);
        if let Some(i) = last_running(cells, id) {
            assert forall|j: int| i < j < cells.len() implies !runs_under(
                #[trigger] cells[j],
                id,
            ) by {
                if j < init.len() {
                    assert(init[j] == cells[j]);
                }
            }
        }
    }
}

/// Whether a cell is a prompt or a plan with this id.
pub open spec fn waits_under(cell: CellView, id: Seq<char>) -> bool {
    cell is Permission && cell->Permission_0.id == id || cell is Plan && cell->Plan_0.id == id
}

/// An answer is put to the last question of its id, and changes nothing else of it or of any other
/// cell.
pub proof fn an_answer_is_put_to_the_last_question(
    view: TranscriptView,
    id: Seq<char>,
    answer: PermissionAnswer,
)
    ensures
        ({
            let next = view.with_answer(id, answer);
            &&& next.sealed == view.sealed
            &&& next.cwd_prefix == view.cwd_prefix
            &&& next.cells.len() == view.cells.len()
            &&& forall|i: int|
                0 <= i < view.cells.len() ==> {
                    let last = waits_under(view.cells[i], id) && forall|j: int|
                        i < j < view.cells.len() ==> !waits_under(view.cells[j], id);
                    if !last {
                        #[trigger] next.cells[i] == view.cells[i]
                    } else if view.cells[i] is Plan {
                        next.cells[i] == CellView::Plan(
                            PlanCellView { answer: Some(answer), ..view.cells[i]->Plan_0 },
                        )
                    } else {
                        next.cells[i] == CellView::Permission(
                            PermissionCellView {
                                answer: Some(answer),
                                ..view.cells[i]->Permission_0
                            },
                        )
                    }
                }
        }),
{
    lemma_last_asking(view.cells, id);
    lemma_none_asking_behind(view.cells, id);
    let next = view.with_answer(id, answer);
    assert forall|i: int| 0 <= i < view.cells.len() implies {
        let last = waits_under(view.cells[i], id) && forall|j: int|
            i < j < view.cells.len() ==> !waits_under(view.cells[j], id);
        if !last {
            #[trigger] next.cells[i] == view.cells[i]
        } else if view.cells[i] is Plan {
            next.cells[i] == CellView::Plan(
                PlanCellView { answer: Some(answer), ..view.cells[i]->Plan_0 },
            )
        } else {
            next.cells[i] == CellView::Permission(
                PermissionCellView { answer: Some(answer), ..view.cells[i]->Permission_0 },
            )
        }
    } by {
        if let Some(k) = last_asking(view.cells, id) {
            assert(waits_under(view.cells[k], id));
        }
    }
}

proof fn lemma_none_asking_behind(cells: Seq<CellView>, id: Seq<char>)
    ensures
        match last_asking(cells, id) {
            Some(i) => forall|j: int|
                i < j < cells.len() ==> !waits_under(#[trigger] cells[j], id),
            None => forall|j: int| 0 <= j < cells.len() ==> !waits_under(#[trigger] cells[j], id),
        },
    decreases cells.len(),
{
    if cells.len() > 0 {
        let init = cells.drop_last();
        lemma_none_asking_behind(init, id);
        lemma_last_asking(cells, id);
        let first = match last_asking(cells, id) {
            Some(i) => i + 1,
            None => 0,
        };
        assert forall|j: int| first <= j < cells.len() implies !waits_under(
            #[trigger] cells[j],
            id,
        ) by {
            if j < init.len() {
                assert(init[j] == cells[j]);
            }
        }
    }
}

/// Whether a cell is a question that nobody has answered.
pub open spec fn is_open(cell: CellView) -> bool {
    cell is Permission && cell->Permission_0.answer is None || cell is Plan
        && cell->Plan_0.answer is None
}

/// A turn waits for the last question that nobody has answered, and for none where all have been.
pub proof fn the_last_open_question_is_waited_for(cells: Seq<CellView>)
    ensures
        match open_id(cells) {
            Some(id) => exists|i: int|
                {
                    &&& 0 <= i < cells.len()
                    &&& is_open(#[trigger] cells[i])
                    &&& waits_under(cells[i], id)
                    &&& forall|j: int| i < j < cells.len() ==> !is_open(#[trigger] cells[j])
                },
            None => forall|j: int| 0 <= j < cells.len() ==> !is_open(#[trigger] cells[j]),
        },
    decreases cells.len(),
{
    if cells.len() > 0 {
        let init = cells.drop_last();
        the_last_open_question_is_waited_for(init);
        let k = cells.len() - 1;
        if is_open(cells[k]) {
            assert(waits_under(cells[k], open_id(cells)->0));
        } else {
            assert(open_id(cells) == open_id(init));
            if open_id(cells) is Some {
                let id = open_id(cells)->0;
                let i = choose|i: int|
                    {
                        &&& 0 <= i < init.len()
                        &&& is_open(#[trigger] init[i])
                        &&& waits_under(init[i], id)
                        &&& forall|j: int| i < j < init.len() ==> !is_open(#[trigger] init[j])
                    };
                assert(cells[i] == init[i]);
                assert forall|j: int| i < j < cells.len() implies !is_open(#[trigger] cells[j]) by {
                    if j < k {
                        assert(init[j] == cells[j]);
                    }
                }
            } else {
                assert forall|j: int| 0 <= j < cells.len() implies !is_open(#[trigger] cells[j]) by {
                    if j < k {
                        assert(init[j] == cells[j]);
                    }
                }
            }
        }
    }
}

/// Cancelling a turn ends the calls that were running and leaves everything else as it was.
pub proof fn cancelling_touches_running_calls_only(cell: CellView)
    ensures
        !(cell is Tool) ==> cancelled(cell) == cell,
        cell matches CellView::Tool(tool) ==> {
            &&& tool.state != CallState::Running ==> cancelled(cell) == cell
            &&& tool.state == CallState::Running ==> cancelled(cell) == CellView::Tool(
                ToolCellView { state: CallState::Finished(ToolStatus::Cancelled), ..tool },
            )
        },
{
}

/// A message that is replayed is shown as it was when it was said: what a person or the agent said
/// as one cell, where it says anything, and then a running call for each that the agent made, in
/// order. Results revise the calls they answer, and what the system said is not shown.
pub proof fn a_replayed_message_is_shown(view: TranscriptView, message: MessageView)
    ensures
        ({
            let next = view.with_message(message);
            let said = text_of(message.content);
            let speaks = text::seen(said).len() > 0;
            let own = if !speaks {
                Seq::empty()
            } else if message.role == Role::User {
                seq![CellView::User(said)]
            } else {
                seq![CellView::Assistant(said)]
            };
            let calls = message.content.filter(|b: BlockView| b is ToolCall).map_values(
                |b: BlockView|
                    CellView::Tool(
                        ToolCellView {
                            id: b->ToolCall_0.id,
                            name: b->ToolCall_0.name,
                            summary: headlined(b->ToolCall_0.arguments, view.cwd_prefix),
                            arguments: summarized(b->ToolCall_0.arguments),
                            state: CallState::Running,
                            detail: None,
                        },
                    ),
            );
            &&& next.cwd_prefix == view.cwd_prefix
            &&& message.role == Role::System ==> next.cells == view.cells
            &&& message.role == Role::User ==> next.cells == view.cells + own
            &&& message.role == Role::Assistant ==> next.cells == view.cells + own + calls
            &&& message.role == Role::Tool ==> next.cells.len() == view.cells.len()
        }),
{
    let said = text_of(message.content);
    lemma_speaks(said);
    let none = Seq::<CellView>::empty();
    assert(view.cells + none =~= view.cells);
    match message.role {
        Role::Assistant => {
            let now = if trimmed(said).len() > 0 {
                view.pushed(CellView::Assistant(said))
            } else {
                view
            };
            if trimmed(said).len() > 0 {
                assert(now.cells =~= view.cells + seq![CellView::Assistant(said)]);
            }
            lemma_calls_shown(now, message.content);
        },
        Role::User => {
            assert(view.cells.push(CellView::User(said)) =~= view.cells + seq![
                CellView::User(said),
            ]);
        },
        Role::Tool => {
            lemma_results_keep(view, message.content);
        },
        Role::System => {},
    }
}

/// A text says something just where anything of it can be seen.
pub(crate) proof fn lemma_speaks(s: Seq<char>)
    ensures
        trimmed(s).len() > 0 <==> text::seen(s).len() > 0,
{
    text::trimming_takes_the_white_ends(s);
    let (i, j) = choose|i: int, j: int|
        {
            &&& 0 <= i <= j <= s.len()
            &&& trimmed(s) == #[trigger] s.subrange(i, j)
            &&& forall|k: int| 0 <= k < i || j <= k < s.len() ==> text::white_space(#[trigger] s[k])
            &&& i < j ==> !text::white_space(s[i]) && !text::white_space(s[j - 1])
        };
    let before = s.take(i);
    let behind = s.skip(j);
    lemma_nothing_seen(before);
    lemma_nothing_seen(behind);
    text::lemma_seen_add(before, trimmed(s));
    text::lemma_seen_add(before + trimmed(s), behind);
    assert(before + trimmed(s) + behind =~= s);
    text::lemma_seen_nothing();
    if i < j {
        let rest = s.subrange(i, j - 1);
        text::lemma_seen_push(rest, s[j - 1]);
        assert(rest.push(s[j - 1]) =~= trimmed(s));
    } else {
        assert(trimmed(s) =~= Seq::<char>::empty());
    }
}

proof fn lemma_nothing_seen(s: Seq<char>)
    requires
        forall|k: int| 0 <= k < s.len() ==> text::white_space(#[trigger] s[k]),
    ensures
        text::seen(s).len() == 0,
    decreases s.len(),
{
    text::lemma_seen_nothing();
    if s.len() > 0 {
        let init = s.drop_last();
        assert forall|k: int| 0 <= k < init.len() implies text::white_space(#[trigger] init[k]) by {
            assert(init[k] == s[k]);
        }
        lemma_nothing_seen(init);
        assert(text::white_space(s[s.len() - 1]));
        text::lemma_seen_push(init, s[s.len() - 1]);
        assert(init.push(s[s.len() - 1]) =~= s);
    } else {
        assert(s =~= Seq::<char>::empty());
    }
}

proof fn lemma_calls_shown(view: TranscriptView, blocks: Seq<BlockView>)
    ensures
        view.with_calls(blocks).cwd_prefix == view.cwd_prefix,
        view.with_calls(blocks).cells == view.cells + blocks.filter(
            |b: BlockView| b is ToolCall,
        ).map_values(
            |b: BlockView|
                CellView::Tool(
                    ToolCellView {
                        id: b->ToolCall_0.id,
                        name: b->ToolCall_0.name,
                        summary: headlined(b->ToolCall_0.arguments, view.cwd_prefix),
                        arguments: summarized(b->ToolCall_0.arguments),
                        state: CallState::Running,
                        detail: None,
                    },
                ),
        ),
    decreases blocks.len(),
{
    let keep = |b: BlockView| b is ToolCall;
    let cell = |b: BlockView|
        CellView::Tool(
            ToolCellView {
                id: b->ToolCall_0.id,
                name: b->ToolCall_0.name,
                summary: headlined(b->ToolCall_0.arguments, view.cwd_prefix),
                arguments: summarized(b->ToolCall_0.arguments),
                state: CallState::Running,
                detail: None,
            },
        );
    reveal(Seq::filter);
    if blocks.len() > 0 {
        let init = blocks.drop_last();
        lemma_calls_shown(view, init);
        if blocks.last() is ToolCall {
            assert(init.filter(keep).push(blocks.last()).map_values(cell) =~= init.filter(
                keep,
            ).map_values(cell).push(cell(blocks.last())));
        }
    }
    assert(view.with_calls(blocks).cells =~= view.cells + blocks.filter(keep).map_values(cell));
}

proof fn lemma_results_keep(view: TranscriptView, blocks: Seq<BlockView>)
    ensures
        view.with_results(blocks).cells.len() == view.cells.len(),
        view.with_results(blocks).cwd_prefix == view.cwd_prefix,
    decreases blocks.len(),
{
    if blocks.len() > 0 {
        lemma_results_keep(view, blocks.drop_last());
        if let BlockView::ToolResult(result) = blocks.last() {
            a_result_revises_its_call(view.with_results(blocks.drop_last()), result);
        }
    }
}

/// A history is replayed message by message, in order, and the results of a message one by one.
pub proof fn a_history_is_replayed_in_order(
    view: TranscriptView,
    history: Seq<MessageView>,
    blocks: Seq<BlockView>,
)
    ensures
        view.with_history(history) == history.fold_left(
            view,
            |now: TranscriptView, message: MessageView| now.with_message(message),
        ),
        view.with_results(blocks) == blocks.filter(|b: BlockView| b is ToolResult).fold_left(
            view,
            |now: TranscriptView, b: BlockView| now.with_result(b->ToolResult_0),
        ),
    decreases history.len() + blocks.len(),
{
    reveal(Seq::filter);
    reveal_with_fuel(Seq::fold_left, 2);
    if history.len() > 0 {
        a_history_is_replayed_in_order(view, history.drop_last(), blocks);
    } else if blocks.len() > 0 {
        a_history_is_replayed_in_order(view, history, blocks.drop_last());
        let kept = blocks.drop_last().filter(|b: BlockView| b is ToolResult);
        assert(kept.push(blocks.last()).drop_last() =~= kept);
    }
}

/// What a search found is counted: the lines of its answer that say something, but for the note that
/// it stopped early, which is counted as a plus.
pub proof fn hits_are_counted(lines: Seq<Seq<char>>)
    ensures
        hit_count(lines) == lines.filter(
            |line: Seq<char>| text::seen(line).len() > 0 && !(line.len() > 0 && line[0] == '…'),
        ).len(),
    decreases lines.len(),
{
    reveal(Seq::filter);
    if lines.len() > 0 {
        hits_are_counted(lines.drop_last());
        lemma_speaks(lines.last());
    }
}

/// Whether the first member with this key is a text that says something, and this one.
pub open spec fn says_under(
    members: Seq<(Seq<char>, JsonView)>,
    key: Seq<char>,
    s: Seq<char>,
) -> bool {
    text::seen(s).len() > 0 && exists|i: int|
        {
            &&& 0 <= i < members.len()
            &&& #[trigger] members[i] == (key, JsonView::Text(s))
            &&& forall|j: int| 0 <= j < i ==> (#[trigger] members[j]).0 != key
        }
}

/// The headline of a call is the first of its telling arguments that says something: its command, or
/// the path it is about as it reads from where the session was launched, or what it looks for. Only
/// where none does, all arguments are shown.
pub proof fn the_first_telling_argument_is_the_headline(
    members: Seq<(Seq<char>, JsonView)>,
    prefix: Seq<Seq<char>>,
    k: int,
    s: Seq<char>,
)
    requires
        0 <= k < 6,
        ({
            let keys = seq![
                "command"@,
                "path"@,
                "file_path"@,
                "pattern"@,
                "query"@,
                "url"@,
            ];
            &&& says_under(members, keys[k], s)
            &&& forall|j: int, t: Seq<char>|
                0 <= j < k ==> !#[trigger] says_under(members, keys[j], t)
        }),
    ensures
        headlined(JsonView::Object(members), prefix) == flattened(
            if k == 1 || k == 2 {
                rerooted(s, prefix)
            } else {
                s
            },
            120,
        ),
{
    let keys = seq!["command"@, "path"@, "file_path"@, "pattern"@, "query"@, "url"@];
    lemma_salient(members, keys[k]);
    assert forall|j: int| 0 <= j < k implies salient(members, #[trigger] keys[j]) is None by {
        lemma_salient(members, keys[j]);
        if salient(members, keys[j]) is Some {
            assert(says_under(members, keys[j], salient(members, keys[j])->0));
        }
    }
    assert(salient(members, keys[k]) == Some(s)) by {
        lemma_salient_is(members, keys[k], s);
    }
    assert(k > 0 ==> salient(members, keys[0]) is None);
    assert(k > 1 ==> salient(members, keys[1]) is None);
    assert(k > 2 ==> salient(members, keys[2]) is None);
    assert(k > 3 ==> salient(members, keys[3]) is None);
    assert(k > 4 ==> salient(members, keys[4]) is None);
}

proof fn lemma_salient(members: Seq<(Seq<char>, JsonView)>, key: Seq<char>)
    ensures
        salient(members, key) is Some ==> says_under(members, key, salient(members, key)->0),
{
    lemma_member_text(members, key);
    if member_text(members, key) is Some {
        lemma_speaks(member_text(members, key)->0);
    }
}

proof fn lemma_member_text(members: Seq<(Seq<char>, JsonView)>, key: Seq<char>)
    ensures
        member_text(members, key) matches Some(s) ==> exists|i: int|
            {
                &&& 0 <= i < members.len()
                &&& #[trigger] members[i] == (key, JsonView::Text(s))
                &&& forall|j: int| 0 <= j < i ==> (#[trigger] members[j]).0 != key
            },
    decreases members.len(),
{
    if members.len() > 0 && member_text(members, key) is Some {
        let s = member_text(members, key)->0;
        if members[0].0 == key {
            assert(members[0] == (key, JsonView::Text(s)));
        } else {
            let rest = members.drop_first();
            lemma_member_text(rest, key);
            let i = choose|i: int|
                {
                    &&& 0 <= i < rest.len()
                    &&& #[trigger] rest[i] == (key, JsonView::Text(s))
                    &&& forall|j: int| 0 <= j < i ==> (#[trigger] rest[j]).0 != key
                };
            assert(members[i + 1] == rest[i]);
            assert forall|j: int| 0 <= j < i + 1 implies (#[trigger] members[j]).0 != key by {
                if j > 0 {
                    assert(members[j] == rest[j - 1]);
                }
            }
        }
    }
}

proof fn lemma_salient_is(members: Seq<(Seq<char>, JsonView)>, key: Seq<char>, s: Seq<char>)
    requires
        says_under(members, key, s),
    ensures
        salient(members, key) == Some(s),
    decreases members.len(),
{
    lemma_speaks(s);
    let i = choose|i: int|
        {
            &&& 0 <= i < members.len()
            &&& #[trigger] members[i] == (key, JsonView::Text(s))
            &&& forall|j: int| 0 <= j < i ==> (#[trigger] members[j]).0 != key
        };
    if i > 0 {
        let rest = members.drop_first();
        assert(members[0].0 != key);
        assert(rest[i - 1] == members[i]);
        assert forall|j: int| 0 <= j < i - 1 implies (#[trigger] rest[j]).0 != key by {
            assert(rest[j] == members[j + 1]);
        }
        lemma_salient_is(rest, key, s);
    }
}

/// The last run of finished calls that can be opened is found at its first call: the call before it,
/// if any, is of another kind or still running.
pub proof fn the_last_run_is_found_at_its_head(cells: Seq<CellView>, n: int)
    requires
        0 <= n <= cells.len(),
    ensures
        match last_head(cells, n) {
            Some(i) => 0 <= i < n && begins_run(cells, i) && forall|j: int|
                i < j < n ==> !#[trigger] begins_run(cells, j),
            None => forall|j: int| 0 <= j < n ==> !#[trigger] begins_run(cells, j),
        },
    decreases n,
{
    if n > 0 {
        the_last_run_is_found_at_its_head(cells, n - 1);
        assert(begins_run(cells, n - 1) == heads_run(cells, n - 1));
    }
}

/// Whether a cell is a finished call and the one before it is not one of the same kind.
pub open spec fn begins_run(cells: Seq<CellView>, i: int) -> bool {
    &&& cells[i] is Tool
    &&& cells[i]->Tool_0.state is Finished
    &&& i == 0 || !(cells[i - 1] is Tool) || !(cells[i - 1]->Tool_0.state is Finished) || verb_of(
        cells[i - 1]->Tool_0.name,
    ).0 != verb_of(cells[i]->Tool_0.name).0
}

/// What is said behind a cell is a cell of its own, whatever that cell is.
pub proof fn a_cell_ends_what_was_being_said(
    view: TranscriptView,
    cell: CellView,
    call: ToolCallView,
    delta: Seq<char>,
)
    ensures
        view.pushed(cell).with_delta(delta).cells == view.cells.push(cell).push(
            CellView::Assistant(delta),
        ),
        view.with_call(call).with_delta(delta).cells.len() == view.cells.len() + 2,
        view.with_call(call).with_delta(delta).cells.last() == CellView::Assistant(delta),
        view.pushed(cell).cwd_prefix == view.cwd_prefix,
{
}

} // verus!

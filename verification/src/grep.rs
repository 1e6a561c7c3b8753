//! The `grep` tool: a literal search across the workspace.

use vstd::prelude::*;
use crate::paths::{is_absolute, AbsPath};
use crate::protocol::{block_views, one_text, BlockView, ContentBlock};
use crate::support;
use crate::support::{byte_size, cut, displayed, resolution};
use crate::text;
use crate::text::{decimal_of, occurs, texts, trimmed_end};
use crate::tool::{
    ListToolsContext, ToolCapabilities, ToolDescription, ToolError, ToolErrorView, ToolId,
    ToolKind,
};

verus! {

/// The most hits that a search reports.
pub const MAX_HITS: usize = 200;

/// Files above this size are almost never source, and scanning them is how a search turns
/// into a minutes-long stall.
pub const MAX_FILE_BYTES: u64 = 2097152;

/// The longest line that is shown whole, in bytes.
pub const MAX_LINE_BYTES: usize = 400;

/// What the tool is called with.
#[derive(Debug, PartialEq, Eq)]
pub struct GrepArgs {
    /// Literal substring to look for. Not a regular expression.
    pub pattern: String,
    /// Directory or file to search. Defaults to the workspace root.
    pub path: Option<String>,
    /// Restrict the search to paths matching this glob, e.g. `*.rs`.
    pub glob: Option<String>,
}

/// What the tool answers with.
#[derive(Debug, PartialEq, Eq)]
pub struct GrepOutput {
    pub pattern: String,
    /// `file:line:text`, one per hit.
    pub hits: Vec<String>,
    pub truncated: bool,
}

/// What the model sees of a search.
pub open spec fn grep_report(pattern: Seq<char>, hits: Seq<Seq<char>>, truncated: bool) -> Seq<
    char,
> {
    if hits.len() == 0 {
        "no matches for `"@ + pattern + "`"@
    } else if truncated {
        text::joined(hits, "\n"@) + "\n… stopped at 200 matches, narrow the search"@
    } else {
        text::joined(hits, "\n"@)
    }
}

impl GrepOutput {
    /// What the model sees of the outcome.
    pub fn render(&self) -> (r: Vec<ContentBlock>)
        ensures
            block_views(r@) == seq![
                BlockView::Text {
                    text: grep_report(self.pattern@, texts(self.hits@), self.truncated),
                },
            ],
    {
        if self.hits.len() == 0 {
            let none = text::concat3("no matches for `", self.pattern.as_str(), "`");
            return one_text(none.as_str());
        }
        let mut report = text::join(&self.hits, "\n");
        if self.truncated {
            report.append("\n… stopped at 200 matches, narrow the search");
        }
        one_text(report.as_str())
    }
}

/// How a matching line is shown: without trailing white space, and cut where it is long.
pub open spec fn shown_line(line: Seq<char>) -> Seq<char> {
    let visible = trimmed_end(line);
    if byte_size(visible) > MAX_LINE_BYTES {
        cut(visible, MAX_LINE_BYTES as nat).push('…')
    } else {
        visible
    }
}

/// The hit that the line with this index is reported as.
pub open spec fn hit_of(label: Seq<char>, index: int, line: Seq<char>) -> Seq<char> {
    label + ":"@ + decimal_of((index + 1) as nat) + ":"@ + shown_line(line)
}

/// The hits of a file, in order.
pub open spec fn hits_in(label: Seq<char>, lines: Seq<Seq<char>>, pattern: Seq<char>) -> Seq<
    Seq<char>,
>
    decreases lines.len(),
{
    if lines.len() == 0 {
        Seq::empty()
    } else {
        let before = hits_in(label, lines.drop_last(), pattern);
        if occurs(lines.last(), pattern) {
            before.push(hit_of(label, lines.len() - 1, lines.last()))
        } else {
            before
        }
    }
}

/// What a search holds after the lines of one more file: it stops at the first hit beyond the
/// limit, and once stopped it holds what it holds.
pub open spec fn scanned(
    found: (Seq<Seq<char>>, bool),
    label: Seq<char>,
    lines: Seq<Seq<char>>,
    pattern: Seq<char>,
) -> (Seq<Seq<char>>, bool) {
    let all = found.0 + hits_in(label, lines, pattern);
    if found.1 {
        found
    } else if all.len() <= MAX_HITS {
        (all, false)
    } else {
        (all.take(MAX_HITS as int), true)
    }
}

/// What a search over some files, each with its label, comes to.
pub open spec fn searched(files: Seq<(Seq<char>, Seq<Seq<char>>)>, pattern: Seq<char>) -> (
    Seq<Seq<char>>,
    bool,
)
    decreases files.len(),
{
    if files.len() == 0 {
        (Seq::empty(), false)
    } else {
        scanned(
            searched(files.drop_last(), pattern),
            files.last().0,
            files.last().1,
            pattern,
        )
    }
}

/// Every hit in some files, in order.
pub open spec fn all_hits(files: Seq<(Seq<char>, Seq<Seq<char>>)>, pattern: Seq<char>) -> Seq<
    Seq<char>,
>
    decreases files.len(),
{
    if files.len() == 0 {
        Seq::empty()
    } else {
        all_hits(files.drop_last(), pattern) + hits_in(files.last().0, files.last().1, pattern)
    }
}

/// A search under way.
#[derive(Debug, PartialEq, Eq)]
pub struct Search {
    pub hits: Vec<String>,
    /// Whether the search stopped because there were more hits than it reports.
    pub truncated: bool,
}

/// How a matching line is shown.
fn show_line(line: &str) -> (r: String)
    ensures
        r@ == shown_line(line@),
{
    let visible = text::trim_end(line);
    let v = text::to_chars(visible.as_str());
    let n: usize = support::fitting(&v, MAX_LINE_BYTES);
    if n == v.len() {
        visible
    } else {
        assert(v@.take(n as int) =~= v@.subrange(0, n as int));
        let mut r = text::from_chars(&v, 0, n);
        r.push('…');
        r
    }
}

impl Search {
    /// A search that has found nothing yet.
    pub fn new() -> (r: Search)
        ensures
            r.hits@ == Seq::<String>::empty(),
            !r.truncated,
    {
        Search { hits: Vec::new(), truncated: false }
    }

    /// Whether an entry of the walk is searched: a file, unless it is known to be too large. A
    /// search that was cancelled ends at the next entry.
    pub fn wants(cancelled: bool, is_file: bool, len: Option<u64>) -> (r: Result<bool, ToolError>)
        ensures
            if cancelled {
                r is Err && r->Err_0@ == ToolErrorView::Cancelled
            } else {
                r is Ok && r->Ok_0 == (is_file && !(len matches Some(n) && n > MAX_FILE_BYTES))
            },
    {
        if cancelled {
            return Err(ToolError::Cancelled);
        }
        Ok(
            is_file && match len {
                Some(n) => n <= MAX_FILE_BYTES,
                None => true,
            },
        )
    }

    /// What a file of the walk is called in a hit.
    pub fn label(workspace_root: &AbsPath, path: &str) -> (r: String)
        ensures
            r@ == if is_absolute(path@) {
                displayed(workspace_root@, path@)
            } else {
                path@
            },
    {
        match AbsPath::new(path) {
            Ok(abs) => support::display(workspace_root, &abs),
            Err(_) => text::copy(path),
        }
    }

    /// Searches the lines of one file, and says whether the search goes on: it stops at the
    /// first hit beyond the limit, and stays stopped.
    pub fn scan(&mut self, label: &str, lines: &Vec<String>, pattern: &str) -> (r: bool)
        ensures
            (texts(final(self).hits@), final(self).truncated) == scanned(
                (texts(old(self).hits@), old(self).truncated),
                label@,
                texts(lines@),
                pattern@,
            ),
            r == !final(self).truncated,
    {
        if self.truncated {
            return false;
        }
        let ghost views = texts(lines@);
        let ghost start = texts(self.hits@);
        if self.hits.len() > MAX_HITS {
            self.hits.truncate(MAX_HITS);
            self.truncated = true;
            assert(texts(self.hits@) =~= (start + hits_in(label@, views, pattern@)).take(
                MAX_HITS as int,
            ));
            return false;
        }
        let ghost all = hits_in(label@, views, pattern@);
        let mut i: usize = 0;
        assert(views.take(0) =~= Seq::empty());
        assert(start + hits_in(label@, views.take(0), pattern@) =~= start);
        while i < lines.len()
            invariant
                i <= lines.len(),
                views == texts(lines@),
                start == texts(old(self).hits@),
                !old(self).truncated,
                all == hits_in(label@, views, pattern@),
                texts(self.hits@) == start + hits_in(label@, views.take(i as int), pattern@),
                texts(self.hits@).len() <= MAX_HITS,
                !self.truncated,
            decreases lines.len() - i,
        {
            let ghost before = texts(self.hits@);
            assert(views.take(i as int + 1).drop_last() =~= views.take(i as int));
            assert(views[i as int] == lines@[i as int]@);
            if text::contains(lines[i].as_str(), pattern) {
                assert(before.len() == self.hits.len());
                if self.hits.len() >= MAX_HITS {
                    self.truncated = true;
                    proof {
                        lemma_hits_grow(label@, views, pattern@, i as int + 1);
                        let found = hits_in(label@, views.take(i as int), pattern@);
                        let next = hits_in(label@, views.take(i as int + 1), pattern@);
                        assert(all.take(next.len() as int) == next);
                        assert((start + all).take(MAX_HITS as int) =~= before) by {
                            assert forall|k: int| 0 <= k < before.len() implies before[k] == (
                            start + all)[k] by {
                                if k >= start.len() {
                                    assert(found[k - start.len()] == next[k - start.len()]);
                                    assert(next[k - start.len()] == all.take(next.len() as int)[k
                                        - start.len()]);
                                }
                            }
                        }
                    }
                    return false;
                }
                let shown = show_line(lines[i].as_str());
                let number = text::decimal(i as u64 + 1);
                let mut hit = text::concat3(label, ":", number.as_str());
                hit.append(":");
                hit.append(shown.as_str());
                self.hits.push(hit);
                assert(texts(self.hits@) =~= before.push(hit@));
                assert(texts(self.hits@) =~= start + hits_in(
                    label@,
                    views.take(i as int + 1),
                    pattern@,
                ));
            }
            i += 1;
        }
        assert(views.take(i as int) =~= views);
        true
    }
}

/// The hits of a prefix are a prefix of the hits.
proof fn lemma_hits_grow(label: Seq<char>, lines: Seq<Seq<char>>, pattern: Seq<char>, n: int)
    requires
        0 <= n <= lines.len(),
    ensures
        hits_in(label, lines.take(n), pattern).len() <= hits_in(label, lines, pattern).len(),
        hits_in(label, lines, pattern).take(
            hits_in(label, lines.take(n), pattern).len() as int,
        ) == hits_in(label, lines.take(n), pattern),
    decreases lines.len(),
{
    if n < lines.len() {
        lemma_hits_grow(label, lines.drop_last(), pattern, n);
        assert(lines.drop_last().take(n) =~= lines.take(n));
        let part = hits_in(label, lines.take(n), pattern);
        assert(hits_in(label, lines, pattern).take(part.len() as int) =~= hits_in(
            label,
            lines.drop_last(),
            pattern,
        ).take(part.len() as int));
    } else {
        assert(lines.take(n) =~= lines);
        assert(hits_in(label, lines, pattern).take(
            hits_in(label, lines, pattern).len() as int,
        ) =~= hits_in(label, lines, pattern));
    }
}

/// Where a search starts, or why it does not.
pub open spec fn search_root_of(
    workspace_root: Seq<char>,
    pattern: Seq<char>,
    path: Option<Seq<char>>,
) -> Result<Seq<char>, ToolErrorView> {
    if pattern.len() == 0 {
        Err(
            ToolErrorView::Execution {
                code: "empty_pattern"@,
                message: "pattern must not be empty"@,
            },
        )
    } else {
        match path {
            Some(path) => resolution(workspace_root, path),
            None => Ok(workspace_root),
        }
    }
}

/// Recursive literal search across the workspace.
pub struct Grep;

impl Grep {
    pub fn id(&self) -> (r: ToolId)
        ensures
            r@ == "grep"@,
    {
        ToolId::new("grep")
    }

    /// The description names `read_file` only where it is there to be used.
    pub fn description(&self, ctx: &ListToolsContext) -> (r: ToolDescription)
        ensures
            ({
                let plain = "Search workspace files for a literal substring, skipping gitignored, binary, and very large files. Returns `file:line:text` hits."@;
                r.text@ == if exists|i: int|
                    0 <= i < ctx.siblings.len() && (#[trigger] ctx.siblings@[i])@ == "read_file"@ {
                    plain + " Follow a hit with `read_file` to see its surrounding lines."@
                } else {
                    plain
                }
            }),
    {
        let mut plain = text::copy(
            "Search workspace files for a literal substring, skipping gitignored, binary, and very large files. Returns `file:line:text` hits.",
        );
        if ctx.has("read_file") {
            plain.append(" Follow a hit with `read_file` to see its surrounding lines.");
        }
        ToolDescription::new(plain.as_str())
    }

    pub fn capabilities(&self) -> (r: ToolCapabilities)
        ensures
            r == (ToolCapabilities {
                kind: ToolKind::Search,
                concurrency_safe: true,
                timeout_millis: None,
            }),
    {
        ToolCapabilities::of_kind(ToolKind::Search)
    }

    /// Where the search starts.
    pub fn search_root(workspace_root: &AbsPath, args: &GrepArgs) -> (r: Result<
        AbsPath,
        ToolError,
    >)
        ensures
            match search_root_of(workspace_root@, args.pattern@, text::opt(args.path)) {
                Ok(path) => r is Ok && r->Ok_0@ == path,
                Err(error) => r is Err && r->Err_0@ == error,
            },
    {
        if args.pattern.as_str().unicode_len() == 0 {
            return Err(
                ToolError::custom("empty_pattern", text::copy("pattern must not be empty")),
            );
        }
        match &args.path {
            Some(path) => support::resolve(workspace_root, path.as_str()),
            None => Ok(workspace_root.clone()),
        }
    }

    /// What the tool answers with when the search is over.
    pub fn output(args: GrepArgs, search: Search) -> (r: GrepOutput)
        ensures
            r.pattern@ == args.pattern@,
            r.hits@ == search.hits@,
            r.truncated == search.truncated,
    {
        GrepOutput { pattern: args.pattern, hits: search.hits, truncated: search.truncated }
    }

    /// The failure of a glob that is none.
    pub fn bad_glob(glob: &str, error: &str) -> (r: ToolError)
        ensures
            r@ == (ToolErrorView::Execution {
                code: "bad_glob"@,
                message: glob@ + ": "@ + error@,
            }),
    {
        ToolError::custom("bad_glob", text::concat3(glob, ": ", error))
    }

    /// The failure of a search that did not come to an end.
    pub fn search_failed(error: &str) -> (r: ToolError)
        ensures
            r@ == (ToolErrorView::Execution { code: "search_failed"@, message: error@ }),
    {
        ToolError::custom("search_failed", text::copy(error))
    }

    /// The failure of a search that starts at nothing.
    pub fn path_not_found(workspace_root: &AbsPath, root: &AbsPath) -> (r: ToolError)
        ensures
            r@ == (ToolErrorView::Execution {
                code: "path_not_found"@,
                message: displayed(workspace_root@, root@) + ": no such path"@,
            }),
    {
        let shown = support::display(workspace_root, root);
        ToolError::custom("path_not_found", text::concat(shown.as_str(), ": no such path"))
    }
}

// Laws.

/// A search over many files reports the first hits of all of them, in the order of the walk, and
/// says that it stopped exactly where there are more.
pub proof fn the_first_hits_are_reported(
    files: Seq<(Seq<char>, Seq<Seq<char>>)>,
    pattern: Seq<char>,
)
    ensures
        ({
            let all = all_hits(files, pattern);
            searched(files, pattern) == if all.len() <= MAX_HITS {
                (all, false)
            } else {
                (all.take(MAX_HITS as int), true)
            }
        }),
    decreases files.len(),
{
    if files.len() > 0 {
        the_first_hits_are_reported(files.drop_last(), pattern);
        let before = all_hits(files.drop_last(), pattern);
        let all = all_hits(files, pattern);
        if before.len() > MAX_HITS {
            assert(all.take(MAX_HITS as int) =~= before.take(MAX_HITS as int));
        }
    }
}

/// Whether a matching line is shown as `shown`: all of it but white space at its end, where that
/// is short; else as many of its characters as fit, and an ellipsis.
pub open spec fn shows(line: Seq<char>, shown: Seq<char>) -> bool {
    let visible = trimmed_end(line);
    if vstd::utf8::encode_utf8(visible).len() <= 400 {
        shown == visible
    } else {
        let n = shown.len() - 1;
        &&& 0 <= n < visible.len()
        &&& shown == visible.take(n).push('…')
        &&& vstd::utf8::encode_utf8(visible.take(n)).len() <= 400
        &&& vstd::utf8::encode_utf8(visible.take(n + 1)).len() > 400
    }
}

/// Whether a hit says that the pattern stands in the line `i`.
pub open spec fn reports(hit: Seq<char>, label: Seq<char>, i: int, line: Seq<char>) -> bool {
    exists|number: Seq<char>, shown: Seq<char>|
        {
            &&& hit == #[trigger] (label + ":"@ + number + ":"@ + shown)
            &&& text::read_digits(number) == i + 1
            &&& shows(line, shown)
        }
}

/// Whether a pattern stands somewhere in a line.
pub open spec fn holds(line: Seq<char>, pattern: Seq<char>) -> bool {
    exists|k: int|
        0 <= k <= line.len() - pattern.len() && #[trigger] line.subrange(k, k + pattern.len())
            == pattern
}

/// The hits of a file are its lines that hold the pattern, all of them and no others, in order:
/// hit `h` is line `picks[h]`.
pub proof fn the_hits_are_the_lines_that_hold_the_pattern(
    label: Seq<char>,
    lines: Seq<Seq<char>>,
    pattern: Seq<char>,
) -> (picks: Seq<int>)
    ensures
        picks.len() == hits_in(label, lines, pattern).len(),
        forall|h: int|
            0 <= h < picks.len() ==> {
                &&& 0 <= #[trigger] picks[h] < lines.len()
                &&& holds(lines[picks[h]], pattern)
                &&& reports(hits_in(label, lines, pattern)[h], label, picks[h], lines[picks[h]])
            },
        forall|g: int, h: int| 0 <= g < h < picks.len() ==> picks[g] < picks[h],
        forall|i: int|
            0 <= i < lines.len() && holds(#[trigger] lines[i], pattern) ==> picks.contains(i),
    decreases lines.len(),
{
    if lines.len() == 0 {
        Seq::empty()
    } else {
        let init = lines.drop_last();
        let n = lines.len() - 1;
        let before = the_hits_are_the_lines_that_hold_the_pattern(label, init, pattern);
        let hits = hits_in(label, lines, pattern);
        let line = lines[n];
        if occurs(line, pattern) {
            let k = choose|k: int| text::occurs_at(line, pattern, k);
            assert(line.subrange(k, k + pattern.len()) == pattern);
            assert(holds(line, pattern));
            lemma_hit_reports(label, n, line);
        } else {
            assert(!holds(line, pattern)) by {
                if holds(line, pattern) {
                    let k = choose|k: int|
                        0 <= k <= line.len() - pattern.len() && #[trigger] line.subrange(
                            k,
                            k + pattern.len(),
                        ) == pattern;
                    assert(text::occurs_at(line, pattern, k));
                }
            }
        }
        let picks = if occurs(line, pattern) {
            before.push(n)
        } else {
            before
        };
        assert forall|h: int| 0 <= h < picks.len() implies {
            &&& 0 <= #[trigger] picks[h] < lines.len()
            &&& holds(lines[picks[h]], pattern)
            &&& reports(hits[h], label, picks[h], lines[picks[h]])
        } by {
            if h < before.len() {
                assert(before[h] == picks[h]);
                assert(init[before[h]] == lines[before[h]]);
                assert(hits[h] == hits_in(label, init, pattern)[h]);
            }
        }
        assert forall|i: int|
            0 <= i < lines.len() && holds(#[trigger] lines[i], pattern) implies picks.contains(
            i,
        ) by {
            if i < n {
                assert(init[i] == lines[i]);
                let h = choose|h: int| 0 <= h < before.len() && before[h] == i;
                assert(picks[h] == i);
            } else {
                assert(picks[before.len() as int] == i);
            }
        }
        picks
    }
}

/// A hit reports its line.
proof fn lemma_hit_reports(label: Seq<char>, i: int, line: Seq<char>)
    requires
        0 <= i,
    ensures
        reports(hit_of(label, i, line), label, i, line),
{
    text::a_numeral_reads_back((i + 1) as nat);
    let number = decimal_of((i + 1) as nat);
    let shown = shown_line(line);
    let visible = trimmed_end(line);
    support::byte_size_is_encoded_length(visible);
    let kept = cut(visible, 400);
    support::cut_is_the_longest_fit(visible, 400);
    support::byte_size_is_encoded_length(kept);
    support::byte_size_is_encoded_length(visible.take(kept.len() as int + 1));
    if byte_size(visible) > 400 {
        if kept.len() == visible.len() {
            assert(visible.take(visible.len() as int) =~= visible);
        }
        assert(shown.len() - 1 == kept.len());
    }
    assert(shows(line, shown));
    assert(hit_of(label, i, line) == label + ":"@ + number + ":"@ + shown);
}

} // verus!

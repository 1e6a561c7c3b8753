//! What the tools share: workspace containment, output budgeting and line diffs.

use vstd::prelude::*;
use crate::paths;
use crate::paths::{
    below, components_of, contained, is_absolute, normalized, path_joined, AbsPath,
};
use crate::text;
use crate::tool::{ToolError, ToolErrorView};

verus! {

/// The path with `.` and `..` folded away by spelling alone. A `..` that would leave the
/// root stays, so that containment can refuse it.
pub fn lexically_normalize(path: &str) -> (r: String)
    ensures
        r@ == normalized(path@, true),
{
    paths::normalize(path, true)
}

/// Where `path` points, folded, from `root`.
pub open spec fn resolved(root: Seq<char>, path: Seq<char>) -> Seq<char> {
    normalized(path_joined(root, path), true)
}

/// Where `path` points from `root`, or the refusal of a path that leaves it.
pub open spec fn resolution(root: Seq<char>, path: Seq<char>) -> Result<
    Seq<char>,
    ToolErrorView,
> {
    if contained(resolved(root, path), root) {
        Ok(resolved(root, path))
    } else {
        Err(
            ToolErrorView::Denied {
                message: path + " resolves outside the workspace root "@ + root,
            },
        )
    }
}

/// Resolves a model-supplied path against the workspace and refuses escapes.
///
/// Normalization is by spelling: `..` is folded here rather than by the filesystem, so a
/// path to something that does not exist yet is held to the same rule as one that does.
pub fn resolve(workspace_root: &AbsPath, path: &str) -> (r: Result<AbsPath, ToolError>)
    ensures
        match resolution(workspace_root@, path@) {
            Ok(abs) => r is Ok && r->Ok_0@ == abs,
            Err(error) => r is Err && r->Err_0@ == error,
        },
{
    let root = workspace_root.as_str();
    let whole = paths::join_paths(root, path);
    proof {
        assert(is_absolute(whole@)) by {
            if !is_absolute(path@) {
                assert(whole@[0] == '/');
            }
        }
        paths::lemma_normalized(whole@, true);
    }
    let folded = lexically_normalize(whole.as_str());
    if !paths::lies_under(folded.as_str(), root) {
        return Err(
            ToolError::denied(
                text::concat3(path, " resolves outside the workspace root ", root),
            ),
        );
    }
    match AbsPath::new(folded.as_str()) {
        Ok(abs) => Ok(abs),
        Err(_) => Err(
            ToolError::denied(
                text::concat3(path, " resolves outside the workspace root ", root),
            ),
        ),
    }
}

/// How a path reads back to the model.
pub open spec fn displayed(root: Seq<char>, path: Seq<char>) -> Seq<char> {
    if !contained(path, root) {
        path
    } else if below(path, root).len() == 0 {
        "."@
    } else {
        below(path, root)
    }
}

/// How a path reads back to the model: relative to the root when it is inside.
pub fn display(root: &AbsPath, path: &AbsPath) -> (r: String)
    ensures
        r@ == displayed(root@, path@),
{
    match path.strip_root(root) {
        Ok(rel) => if rel.as_str().unicode_len() == 0 {
            text::copy(".")
        } else {
            text::copy(rel.as_str())
        },
        Err(_) => text::copy(path.as_str()),
    }
}

/// How much of a tool's output may reach the model, in bytes. A note stands for what is cut.
///
/// Tool output is charged against the same context budget as the conversation, so a tool
/// that reads a generated file of forty megabytes must degrade rather than end the turn.
pub const MAX_OUTPUT_BYTES: usize = 65536;

/// How many bytes UTF-8 takes for a character.
pub open spec fn char_size(c: char) -> nat {
    if (c as u32) < 0x80 {
        1
    } else if (c as u32) < 0x800 {
        2
    } else if (c as u32) < 0x10000 {
        3
    } else {
        4
    }
}

/// How many bytes UTF-8 takes for a text.
pub open spec fn byte_size(s: Seq<char>) -> nat
    decreases s.len(),
{
    if s.len() == 0 {
        0
    } else {
        byte_size(s.drop_last()) + char_size(s.last())
    }
}

/// The bytes of a text are those of its first character and those of the rest.
proof fn lemma_size_front(s: Seq<char>)
    requires
        s.len() > 0,
    ensures
        byte_size(s) == char_size(s[0]) + byte_size(s.drop_first()),
    decreases s.len(),
{
    if s.len() > 1 {
        lemma_size_front(s.drop_last());
        assert(s.drop_last().drop_first() =~= s.drop_first().drop_last());
    } else {
        assert(s.drop_last() =~= Seq::<char>::empty());
        assert(s.drop_first() =~= Seq::<char>::empty());
    }
}

/// The size of a text is the length of its UTF-8 encoding.
pub proof fn byte_size_is_encoded_length(s: Seq<char>)
    ensures
        byte_size(s) == vstd::utf8::encode_utf8(s).len(),
    decreases s.len(),
{
    if s.len() > 0 {
        lemma_size_front(s);
        byte_size_is_encoded_length(s.drop_first());
        vstd::utf8::char_is_scalar(s[0]);
    }
}

/// The longest prefix of whole characters that takes at most `budget` bytes.
pub open spec fn cut(s: Seq<char>, budget: nat) -> Seq<char>
    decreases s.len(),
{
    if byte_size(s) <= budget || s.len() == 0 {
        s
    } else {
        cut(s.drop_last(), budget)
    }
}

/// How many bytes UTF-8 takes for a character.
pub(crate) fn size_of_char(c: char) -> (r: usize)
    ensures
        r == char_size(c),
{
    let code: u32 = c as u32;
    if code < 0x80 {
        1
    } else if code < 0x800 {
        2
    } else if code < 0x10000 {
        3
    } else {
        4
    }
}

/// A longer prefix takes more bytes.
pub(crate) proof fn lemma_size_grows(s: Seq<char>, i: int, j: int)
    requires
        0 <= i <= j <= s.len(),
    ensures
        byte_size(s.take(i)) + (j - i) <= byte_size(s.take(j)),
    decreases j - i,
{
    if i < j {
        lemma_size_grows(s, i, j - 1);
        assert(s.take(j).drop_last() =~= s.take(j - 1));
    }
}

/// What is cut is the prefix up to the first character that does not fit.
proof fn lemma_cut(s: Seq<char>, budget: nat, i: int, n: int)
    requires
        0 <= i <= n <= s.len(),
        byte_size(s.take(i)) <= budget,
        i < n ==> byte_size(s.take(i + 1)) > budget,
    ensures
        cut(s.take(n), budget) == s.take(i),
    decreases n,
{
    if i < n {
        lemma_size_grows(s, i + 1, n);
        assert(s.take(n).drop_last() =~= s.take(n - 1));
        lemma_cut(s, budget, i, n - 1);
    }
}

/// What a text is cut to is its longest prefix that fits: it fits, and one character more
/// would not.
pub proof fn cut_is_the_longest_fit(s: Seq<char>, budget: nat)
    ensures
        cut(s, budget).len() <= s.len(),
        cut(s, budget) == s.take(cut(s, budget).len() as int),
        byte_size(cut(s, budget)) <= budget,
        cut(s, budget).len() < s.len() ==> byte_size(
            s.take(cut(s, budget).len() as int + 1),
        ) > budget,
    decreases s.len(),
{
    if byte_size(s) <= budget || s.len() == 0 {
        assert(s.take(s.len() as int) =~= s);
    } else {
        cut_is_the_longest_fit(s.drop_last(), budget);
        let n = cut(s, budget).len() as int;
        assert(s.drop_last().take(n) =~= s.take(n));
        if n == s.len() - 1 {
            assert(s.take(n + 1) =~= s);
        } else {
            assert(s.drop_last().take(n + 1) =~= s.take(n + 1));
        }
    }
}

/// How many characters of `v` fit into `budget` bytes.
pub fn fitting(v: &Vec<char>, budget: usize) -> (i: usize)
    ensures
        i <= v.len(),
        v@.take(i as int) == cut(v@, budget as nat),
        (i == v.len()) == (byte_size(v@) <= budget),
{
    let mut i: usize = 0;
    let mut size: usize = 0;
    assert(v@.take(v.len() as int) =~= v@);
    while i < v.len()
        invariant
            i <= v.len(),
            size == byte_size(v@.take(i as int)),
            size <= budget,
            v@.take(v.len() as int) == v@,
        ensures
            i <= v.len(),
            size == byte_size(v@.take(i as int)),
            size <= budget,
            i < v.len() ==> byte_size(v@.take(i as int + 1)) > budget,
        decreases v.len() - i,
    {
        assert(v@.take(i as int + 1).drop_last() =~= v@.take(i as int));
        let more: usize = size_of_char(v[i]);
        if more > budget - size {
            break;
        }
        size += more;
        i += 1;
    }
    proof {
        lemma_cut(v@, budget as nat, i as int, v.len() as int);
        if i < v.len() {
            lemma_size_grows(v@, i + 1, v.len() as int);
        }
    }
    i
}

/// A text cut to the output budget, with a note where anything was dropped.
pub open spec fn capped(s: Seq<char>, note: Seq<char>) -> Seq<char> {
    if byte_size(s) <= MAX_OUTPUT_BYTES {
        s
    } else {
        cut(s, MAX_OUTPUT_BYTES as nat) + "\n… "@ + note
    }
}

/// Cuts `s` to the output budget, appending a note when anything was dropped, and says
/// whether anything was.
pub fn cap(s: String, note: &str) -> (r: (String, bool))
    ensures
        r.0@ == capped(s@, note@),
        r.1 == (byte_size(s@) > MAX_OUTPUT_BYTES),
{
    let v = text::to_chars(s.as_str());
    let n: usize = fitting(&v, MAX_OUTPUT_BYTES);
    if n == v.len() {
        return (s, false);
    }
    assert(v@.take(n as int) =~= v@.subrange(0, n as int));
    let kept = text::from_chars(&v, 0, n);
    (text::concat3(kept.as_str(), "\n… ", note), true)
}

/// What a diff does with a line.
#[derive(Clone, Copy, Debug, PartialEq, Eq, Structural)]
pub enum DiffTag {
    Equal,
    Delete,
    Insert,
}

/// One line of a diff, with where it stands on each side.
#[derive(Debug, PartialEq, Eq)]
pub struct DiffChange {
    pub tag: DiffTag,
    pub old_index: Option<usize>,
    pub new_index: Option<usize>,
    pub value: String,
}

/// What a [`DiffChange`] says.
pub struct DiffChangeView {
    pub tag: DiffTag,
    pub old_index: Option<usize>,
    pub new_index: Option<usize>,
    pub value: Seq<char>,
}

impl View for DiffChange {
    type V = DiffChangeView;

    open spec fn view(&self) -> DiffChangeView {
        DiffChangeView {
            tag: self.tag,
            old_index: self.old_index,
            new_index: self.new_index,
            value: self.value@,
        }
    }
}

/// What a cluster of changes says.
pub open spec fn change_views(group: Seq<DiffChange>) -> Seq<DiffChangeView> {
    group.map_values(|c: DiffChange| c@)
}

/// What the clusters of a diff say.
pub open spec fn group_views(groups: Seq<Vec<DiffChange>>) -> Seq<Seq<DiffChangeView>> {
    groups.map_values(|g: Vec<DiffChange>| change_views(g@))
}

/// The clusters of changes that `similar` finds between two texts, line by line, with up to
/// `radius` unchanged lines around each.
pub uninterp spec fn clusters(before: Seq<char>, after: Seq<char>, radius: nat) -> Seq<
    Seq<DiffChangeView>,
>;

/// Whether a change stands on the sides that its tag says, at lines that the texts have.
pub open spec fn indexed(change: DiffChangeView, before: Seq<char>, after: Seq<char>) -> bool {
    &&& change.old_index is Some <==> change.tag != DiffTag::Insert
    &&& change.new_index is Some <==> change.tag != DiffTag::Delete
    &&& change.old_index matches Some(i) ==> i < before.len()
    &&& change.new_index matches Some(i) ==> i < after.len()
}

/// `similar::TextDiff::from_lines`, with its `grouped_ops` expanded by its `iter_changes`.
///
/// Which lines are paired is the crate's choice, a function of the two texts and the radius.
/// Of each change it is claimed that a deleted line stands in the old text only, an inserted
/// line in the new one only and an equal line in both, and that a line's index is less than
/// the number of characters of its text, since no line is empty. No line of either text
/// stands in more than one change, so no more lines are inserted or deleted than the text
/// has characters.
#[verifier::external_body]
fn diff_clusters(before: &str, after: &str, radius: usize) -> (r: Vec<Vec<DiffChange>>)
    requires
        2 * radius <= usize::MAX,
    ensures
        group_views(r@) == clusters(before@, after@, radius as nat),
        forall|g: int, c: int|
            0 <= g < r.len() && 0 <= c < r@[g].len() ==> indexed(
                #[trigger] r@[g]@[c]@,
                before@,
                after@,
            ),
        all_tagged(group_views(r@), DiffTag::Insert) <= after@.len(),
        all_tagged(group_views(r@), DiffTag::Delete) <= before@.len(),
{
    let diff = similar::TextDiff::from_lines(before, after);
    let convert = |change: similar::Change<&str>| DiffChange {
        tag: match change.tag() {
            similar::ChangeTag::Equal => DiffTag::Equal,
            similar::ChangeTag::Delete => DiffTag::Delete,
            similar::ChangeTag::Insert => DiffTag::Insert,
        },
        old_index: change.old_index(),
        new_index: change.new_index(),
        value: change.value().to_string(),
    };
    let expand = |ops: &Vec<similar::DiffOp>| ops.iter().flat_map(|op| diff.iter_changes(op)).map(convert).collect();
    diff.grouped_ops(radius).iter().map(expand).collect()
}

/// Lines added and removed, plus a rendered diff a person can read at a glance.
///
/// Each line carries its sign, its number in a column sized to the diff's own widest number,
/// and its text; `⋮` stands between two clusters.
#[derive(Debug, PartialEq, Eq)]
pub struct LineDiff {
    pub added: usize,
    pub removed: usize,
    pub hunk: String,
}

/// What a [`LineDiff`] says.
pub struct LineDiffView {
    pub added: nat,
    pub removed: nat,
    pub hunk: Seq<char>,
}

impl View for LineDiff {
    type V = LineDiffView;

    open spec fn view(&self) -> LineDiffView {
        LineDiffView { added: self.added as nat, removed: self.removed as nat, hunk: self.hunk@ }
    }
}

/// The sign in front of a line.
pub open spec fn sign_of(tag: DiffTag) -> char {
    match tag {
        DiffTag::Equal => ' ',
        DiffTag::Delete => '-',
        DiffTag::Insert => '+',
    }
}

/// The number of a line, counted from one: in the old text for a deleted line, in the new
/// one for any other.
pub open spec fn number_of(change: DiffChangeView) -> Option<nat> {
    let index = if change.tag == DiffTag::Delete {
        change.old_index
    } else {
        change.new_index
    };
    match index {
        Some(i) => Some((i + 1) as nat),
        None => None,
    }
}

/// A line without the line feeds at its end.
pub open spec fn feeds_trimmed(s: Seq<char>) -> Seq<char>
    decreases s.len(),
{
    if s.len() > 0 && s.last() == '\n' {
        feeds_trimmed(s.drop_last())
    } else {
        s
    }
}

/// `s` filled up with spaces on its left to `width`.
pub open spec fn right_aligned(s: Seq<char>, width: nat) -> Seq<char> {
    if s.len() < width {
        text::repeated(' ', (width - s.len()) as nat) + s
    } else {
        s
    }
}

/// The row of a line in a column of `width`.
pub open spec fn diff_row(change: DiffChangeView, width: nat) -> Seq<char> {
    let number = match number_of(change) {
        Some(n) => text::decimal_of(n),
        None => Seq::empty(),
    };
    seq![sign_of(change.tag), ' '] + right_aligned(number, width) + " "@ + feeds_trimmed(
        change.value,
    ) + "\n"@
}

/// The rows of one cluster.
pub open spec fn cluster_rows(group: Seq<DiffChangeView>, width: nat) -> Seq<char>
    decreases group.len(),
{
    if group.len() == 0 {
        Seq::empty()
    } else {
        cluster_rows(group.drop_last(), width) + diff_row(group.last(), width)
    }
}

/// The rows of a diff, with a gap between each two clusters.
pub open spec fn diff_rows(groups: Seq<Seq<DiffChangeView>>, width: nat) -> Seq<char>
    decreases groups.len(),
{
    if groups.len() == 0 {
        Seq::empty()
    } else if groups.len() == 1 {
        cluster_rows(groups[0], width)
    } else {
        diff_rows(groups.drop_last(), width) + text::repeated(' ', width) + "  ⋮\n"@
            + cluster_rows(groups.last(), width)
    }
}

/// How many lines of a cluster have this tag.
pub open spec fn tagged(group: Seq<DiffChangeView>, tag: DiffTag) -> nat
    decreases group.len(),
{
    if group.len() == 0 {
        0
    } else {
        tagged(group.drop_last(), tag) + (if group.last().tag == tag {
            1nat
        } else {
            0
        })
    }
}

/// How many lines of a diff have this tag.
pub open spec fn all_tagged(groups: Seq<Seq<DiffChangeView>>, tag: DiffTag) -> nat
    decreases groups.len(),
{
    if groups.len() == 0 {
        0
    } else {
        all_tagged(groups.drop_last(), tag) + tagged(groups.last(), tag)
    }
}

/// The larger of two numbers.
pub open spec fn larger(a: nat, b: nat) -> nat {
    if a < b {
        b
    } else {
        a
    }
}

/// The largest line number of a cluster.
pub open spec fn widest(group: Seq<DiffChangeView>) -> nat
    decreases group.len(),
{
    if group.len() == 0 {
        0
    } else {
        larger(
            widest(group.drop_last()),
            match number_of(group.last()) {
                Some(n) => n,
                None => 0,
            },
        )
    }
}

/// The largest line number of a diff.
pub open spec fn all_widest(groups: Seq<Seq<DiffChangeView>>) -> nat
    decreases groups.len(),
{
    if groups.len() == 0 {
        0
    } else {
        larger(all_widest(groups.drop_last()), widest(groups.last()))
    }
}

/// How a diff reads.
pub open spec fn rendered_diff(groups: Seq<Seq<DiffChangeView>>) -> LineDiffView {
    LineDiffView {
        added: all_tagged(groups, DiffTag::Insert),
        removed: all_tagged(groups, DiffTag::Delete),
        hunk: capped(
            diff_rows(groups, text::decimal_of(all_widest(groups)).len()),
            "diff truncated"@,
        ),
    }
}

/// Whether every line of a diff can be numbered, and all of them counted, by a machine word.
pub open spec fn countable(groups: Seq<Seq<DiffChangeView>>) -> bool {
    &&& forall|g: int, c: int|
        0 <= g < groups.len() && 0 <= c < groups[g].len() ==> (number_of(
            #[trigger] groups[g][c],
        ) matches Some(n) ==> n <= usize::MAX)
    &&& all_tagged(groups, DiffTag::Insert) <= usize::MAX
    &&& all_tagged(groups, DiffTag::Delete) <= usize::MAX
}

/// `s` without the line feeds at its end.
pub fn trim_feeds(s: &str) -> (r: String)
    ensures
        r@ == feeds_trimmed(s@),
{
    let v = text::to_chars(s);
    let mut j: usize = v.len();
    assert(v@.take(j as int) =~= v@);
    while j > 0 && v[j - 1] == '\n'
        invariant
            j <= v.len(),
            feeds_trimmed(v@) == feeds_trimmed(v@.take(j as int)),
        decreases j,
    {
        assert(v@.take(j as int).drop_last() =~= v@.take(j as int - 1));
        j -= 1;
    }
    assert(v@.take(j as int) =~= v@.subrange(0, j as int));
    text::from_chars(&v, 0, j)
}

/// `s` filled up with spaces on its left to `width`.
pub fn right_align(s: &str, width: usize) -> (r: String)
    ensures
        r@ == right_aligned(s@, width as nat),
{
    let n: usize = s.unicode_len();
    if n < width {
        let pad = text::repeat(' ', width - n);
        text::concat(pad.as_str(), s)
    } else {
        text::copy(s)
    }
}

impl DiffChange {
    /// The number of this line.
    fn number(&self) -> (r: Option<usize>)
        requires
            number_of(self@) matches Some(n) ==> n <= usize::MAX,
        ensures
            match number_of(self@) {
                Some(n) => r == Some(n as usize),
                None => r is None,
            },
    {
        let index: Option<usize> = match self.tag {
            DiffTag::Delete => self.old_index,
            _ => self.new_index,
        };
        match index {
            Some(i) => Some(i + 1),
            None => None,
        }
    }

    /// The row of this line in a column of `width`.
    fn row(&self, width: usize) -> (r: String)
        requires
            number_of(self@) matches Some(n) ==> n <= usize::MAX,
        ensures
            r@ == diff_row(self@, width as nat),
    {
        let mut r = String::new();
        r.push(
            match self.tag {
                DiffTag::Equal => ' ',
                DiffTag::Delete => '-',
                DiffTag::Insert => '+',
            },
        );
        r.push(' ');
        assert(r@ =~= seq![sign_of(self.tag), ' ']);
        let number = match self.number() {
            Some(n) => text::decimal(n as u64),
            None => String::new(),
        };
        assert(self.number_view() == number@);
        let number = right_align(number.as_str(), width);
        r.append(number.as_str());
        r.append(" ");
        let line = trim_feeds(self.value.as_str());
        r.append(line.as_str());
        r.append("\n");
        r
    }

    spec fn number_view(&self) -> Seq<char> {
        match number_of(self@) {
            Some(n) => text::decimal_of(n),
            None => Seq::empty(),
        }
    }
}

/// Renders the clusters of a diff.
pub fn render_diff(groups: &Vec<Vec<DiffChange>>) -> (r: LineDiff)
    requires
        countable(group_views(groups@)),
    ensures
        r@ == rendered_diff(group_views(groups@)),
{
    let ghost views = group_views(groups@);
    let mut added: usize = 0;
    let mut removed: usize = 0;
    let mut max: usize = 0;
    let mut g: usize = 0;
    while g < groups.len()
        invariant
            g <= groups.len(),
            views == group_views(groups@),
            countable(views),
            added == all_tagged(views.take(g as int), DiffTag::Insert),
            removed == all_tagged(views.take(g as int), DiffTag::Delete),
            max == all_widest(views.take(g as int)),
        decreases groups.len() - g,
    {
        let ghost group = views[g as int];
        let ghost added0 = added as nat;
        let ghost removed0 = removed as nat;
        let ghost max0 = max as nat;
        assert(group == change_views(groups@[g as int]@));
        proof {
            assert(views.take(g as int + 1).drop_last() =~= views.take(g as int));
            lemma_tagged_grows(views, DiffTag::Insert, g as int + 1);
            lemma_tagged_grows(views, DiffTag::Delete, g as int + 1);
        }
        let mut c: usize = 0;
        while c < groups[g].len()
            invariant
                g < groups.len(),
                c <= groups@[g as int].len(),
                group == views[g as int],
                group == change_views(groups@[g as int]@),
                countable(views),
                views == group_views(groups@),
                added == added0 + tagged(group.take(c as int), DiffTag::Insert),
                removed == removed0 + tagged(group.take(c as int), DiffTag::Delete),
                max == larger(max0, widest(group.take(c as int))),
                added0 + tagged(group, DiffTag::Insert) <= usize::MAX,
                removed0 + tagged(group, DiffTag::Delete) <= usize::MAX,
            decreases groups@[g as int].len() - c,
        {
            let change = &groups[g][c];
            assert(change@ == views[g as int][c as int]);
            proof {
                assert(group.take(c as int + 1).drop_last() =~= group.take(c as int));
                lemma_tagged_prefix(group, DiffTag::Insert, c as int + 1);
                lemma_tagged_prefix(group, DiffTag::Delete, c as int + 1);
            }
            match change.tag {
                DiffTag::Delete => {
                    removed += 1;
                },
                DiffTag::Insert => {
                    added += 1;
                },
                DiffTag::Equal => {},
            }
            let number: usize = match change.number() {
                Some(n) => n,
                None => 0,
            };
            if max < number {
                max = number;
            }
            c += 1;
        }
        assert(group.take(c as int) =~= group);
        g += 1;
    }
    assert(views.take(g as int) =~= views);
    let digits = text::decimal(max as u64);
    let width: usize = digits.as_str().unicode_len();
    let mut hunk = String::new();
    g = 0;
    assert(hunk@ =~= diff_rows(views.take(0), width as nat));
    while g < groups.len()
        invariant
            g <= groups.len(),
            views == group_views(groups@),
            countable(views),
            hunk@ == diff_rows(views.take(g as int), width as nat),
        decreases groups.len() - g,
    {
        let ghost group = views[g as int];
        assert(group == change_views(groups@[g as int]@));
        assert(views.take(g as int + 1).drop_last() =~= views.take(g as int));
        if g > 0 {
            let gap = text::repeat(' ', width);
            hunk.append(gap.as_str());
            hunk.append("  ⋮\n");
        }
        let ghost start = hunk@;
        let mut c: usize = 0;
        assert(start + cluster_rows(group.take(0), width as nat) =~= start);
        while c < groups[g].len()
            invariant
                g < groups.len(),
                c <= groups@[g as int].len(),
                group == views[g as int],
                group == change_views(groups@[g as int]@),
                countable(views),
                views == group_views(groups@),
                hunk@ == start + cluster_rows(group.take(c as int), width as nat),
            decreases groups@[g as int].len() - c,
        {
            let change = &groups[g][c];
            assert(change@ == views[g as int][c as int]);
            assert(group.take(c as int + 1).drop_last() =~= group.take(c as int));
            let row = change.row(width);
            hunk.append(row.as_str());
            assert(hunk@ =~= start + cluster_rows(group.take(c as int + 1), width as nat));
            c += 1;
        }
        assert(group.take(c as int) =~= group);
        assert(hunk@ =~= diff_rows(views.take(g as int + 1), width as nat));
        g += 1;
    }
    assert(views.take(g as int) =~= views);
    let (hunk, _) = cap(hunk, "diff truncated");
    LineDiff { added, removed, hunk }
}

/// A text has no more characters than bytes.
proof fn lemma_sized_by_bytes(s: Seq<char>, bytes: Seq<u8>)
    requires
        bytes == vstd::utf8::encode_utf8(s),
    ensures
        s.len() <= bytes.len(),
{
    byte_size_is_encoded_length(s);
    lemma_size_grows(s, 0, s.len() as int);
    assert(s.take(s.len() as int) =~= s);
}

/// How many unchanged lines are shown around a change.
pub const DIFF_CONTEXT: usize = 2;

/// The lines that change going from `before` to `after`.
pub fn line_diff(before: &str, after: &str) -> (r: LineDiff)
    ensures
        r@ == rendered_diff(clusters(before@, after@, DIFF_CONTEXT as nat)),
{
    let groups = diff_clusters(before, after, DIFF_CONTEXT);
    let (old, new) = (before.as_bytes(), after.as_bytes());
    proof {
        lemma_sized_by_bytes(before@, old@);
        lemma_sized_by_bytes(after@, new@);
        assert(old@.len() == old.len() && new@.len() == new.len());
        let views = group_views(groups@);
        assert forall|g: int, c: int|
            0 <= g < views.len() && 0 <= c < views[g].len() implies (number_of(
            #[trigger] views[g][c],
        ) matches Some(n) ==> n <= usize::MAX) by {
            assert(views[g][c] == groups@[g]@[c]@);
            assert(indexed(groups@[g]@[c]@, before@, after@));
        }
    }
    render_diff(&groups)
}

/// A longer prefix of a cluster has no fewer lines of a tag.
proof fn lemma_tagged_prefix(group: Seq<DiffChangeView>, tag: DiffTag, n: int)
    requires
        0 <= n <= group.len(),
    ensures
        tagged(group.take(n), tag) <= tagged(group, tag),
    decreases group.len(),
{
    if n < group.len() {
        lemma_tagged_prefix(group.drop_last(), tag, n);
        assert(group.drop_last().take(n) =~= group.take(n));
    } else {
        assert(group.take(n) =~= group);
    }
}

/// A longer prefix of a diff has no fewer lines of a tag.
proof fn lemma_tagged_grows(groups: Seq<Seq<DiffChangeView>>, tag: DiffTag, n: int)
    requires
        0 <= n <= groups.len(),
    ensures
        all_tagged(groups.take(n), tag) <= all_tagged(groups, tag),
    decreases groups.len(),
{
    if n < groups.len() {
        lemma_tagged_grows(groups.drop_last(), tag, n);
        assert(groups.drop_last().take(n) =~= groups.take(n));
    } else {
        assert(groups.take(n) =~= groups);
    }
}

/// Resolving a path that has been resolved changes nothing: what a tool reports can be handed
/// back to it.
pub proof fn resolving_again_changes_nothing(root: Seq<char>, path: Seq<char>)
    requires
        is_absolute(root),
        resolution(root, path) is Ok,
    ensures
        resolution(root, resolution(root, path)->Ok_0) == resolution(root, path),
{
    let whole = path_joined(root, path);
    assert(is_absolute(whole)) by {
        if !is_absolute(path) {
            assert(whole[0] == '/');
        }
    }
    paths::lemma_normalized(whole, true);
    paths::normalizing_again_changes_nothing(whole, true);
    let abs = resolved(root, path);
    assert(path_joined(root, abs) == abs);
}

/// A path that is not refused climbs nowhere: it holds no `.` and no `..`, whatever was asked for,
/// as long as the root is below `/` and does not begin by climbing out of it.
pub proof fn a_resolved_path_climbs_nowhere(root: Seq<char>, path: Seq<char>, i: int)
    requires
        is_absolute(root),
        components_of(root).len() > 1,
        components_of(root)[1] != seq!['.', '.'],
        resolution(root, path) is Ok,
        1 <= i < components_of(resolution(root, path)->Ok_0).len(),
    ensures
        components_of(resolution(root, path)->Ok_0)[i] != seq!['.'],
        components_of(resolution(root, path)->Ok_0)[i] != seq!['.', '.'],
{
    let whole = path_joined(root, path);
    assert(is_absolute(whole)) by {
        if !is_absolute(path) {
            assert(whole[0] == '/');
        }
    }
    paths::lemma_components_rooted(whole);
    paths::lemma_normalized(whole, true);
    paths::lemma_folded_settled(components_of(whole), true);
    let all = components_of(resolved(root, path));
    let base = components_of(root);
    assert(all[1] == base[1]) by {
        assert(all.take(base.len() as int)[1] == base[1]);
    }
    assert(all[i] != seq!['.']);
}

/// A diff counts the lines that it inserts and those that it deletes, over all its clusters.
pub proof fn a_diff_counts_what_changes(groups: Seq<Seq<DiffChangeView>>)
    ensures
        rendered_diff(groups).added == groups.flatten().filter(
            |c: DiffChangeView| c.tag == DiffTag::Insert,
        ).len(),
        rendered_diff(groups).removed == groups.flatten().filter(
            |c: DiffChangeView| c.tag == DiffTag::Delete,
        ).len(),
{
    lemma_all_tagged(groups, DiffTag::Insert);
    lemma_all_tagged(groups, DiffTag::Delete);
}

proof fn lemma_tagged_filter(group: Seq<DiffChangeView>, tag: DiffTag)
    ensures
        tagged(group, tag) == group.filter(|c: DiffChangeView| c.tag == tag).len(),
    decreases group.len(),
{
    reveal(Seq::filter);
    if group.len() > 0 {
        lemma_tagged_filter(group.drop_last(), tag);
    }
}

proof fn lemma_all_tagged(groups: Seq<Seq<DiffChangeView>>, tag: DiffTag)
    ensures
        all_tagged(groups, tag) == groups.flatten().filter(|c: DiffChangeView| c.tag == tag).len(),
    decreases groups.len(),
{
    let keep = |c: DiffChangeView| c.tag == tag;
    reveal(Seq::filter);
    if groups.len() > 0 {
        let init = groups.drop_last();
        lemma_all_tagged(init, tag);
        lemma_tagged_filter(groups.last(), tag);
        init.lemma_flatten_push(groups.last());
        assert(init.push(groups.last()) =~= groups);
        Seq::filter_distributes_over_add(init.flatten(), groups.last(), keep);
    }
}

/// A row of a diff starts with the sign of its line, shows the line's number, counted from one, at
/// the right of its column, and then the line as it is.
pub proof fn a_row_shows_its_line(change: DiffChangeView, width: nat)
    ensures
        ({
            let row = diff_row(change, width);
            let index = if change.tag == DiffTag::Delete {
                change.old_index
            } else {
                change.new_index
            };
            let number = match index {
                Some(i) => text::decimal_of((i + 1) as nat),
                None => Seq::empty(),
            };
            let column = if number.len() < width {
                width as int
            } else {
                number.len() as int
            };
            let line = row.subrange(column + 3, row.len() - 1);
            &&& row.len() >= column + 4
            &&& row[0] == (match change.tag {
                DiffTag::Insert => '+',
                DiffTag::Delete => '-',
                DiffTag::Equal => ' ',
            })
            &&& row[1] == ' '
            &&& forall|i: int| 2 <= i < 2 + column - number.len() ==> #[trigger] row[i] == ' '
            &&& row.subrange(2 + column - number.len(), 2 + column) == number
            &&& row[2 + column] == ' '
            &&& row.last() == '\n'
            &&& line.len() <= change.value.len()
            &&& line == change.value.take(line.len() as int)
            &&& line.len() == 0 || line.last() != '\n'
            &&& forall|i: int| line.len() <= i < change.value.len() ==> #[trigger] change.value[i]
                == '\n'
        }),
{
    reveal_strlit(" ");
    reveal_strlit("\n");
    let row = diff_row(change, width);
    let number = match number_of(change) {
        Some(n) => text::decimal_of(n),
        None => Seq::empty(),
    };
    let aligned = right_aligned(number, width);
    let column = aligned.len() as int;
    lemma_feeds_trimmed(change.value);
    let line = feeds_trimmed(change.value);
    assert(row.subrange(column + 3, row.len() - 1) =~= line);
    assert(row.subrange(2 + column - number.len(), 2 + column) =~= number);
    assert(row.last() == '\n');
    assert forall|i: int| 2 <= i < 2 + column - number.len() implies #[trigger] row[i] == ' ' by {
        assert(row[i] == aligned[i - 2]);
    }
}

proof fn lemma_feeds_trimmed(s: Seq<char>)
    ensures
        feeds_trimmed(s).len() <= s.len(),
        feeds_trimmed(s) == s.take(feeds_trimmed(s).len() as int),
        feeds_trimmed(s).len() == 0 || feeds_trimmed(s).last() != '\n',
        forall|i: int| feeds_trimmed(s).len() <= i < s.len() ==> #[trigger] s[i] == '\n',
    decreases s.len(),
{
    if s.len() > 0 && s.last() == '\n' {
        let init = s.drop_last();
        lemma_feeds_trimmed(init);
        let n = feeds_trimmed(s).len() as int;
        assert(s.take(n) =~= init.take(n));
        assert forall|i: int| n <= i < s.len() implies #[trigger] s[i] == '\n' by {
            if i < init.len() {
                assert(init[i] == '\n');
            }
        }
    } else {
        assert(s.take(s.len() as int) =~= s);
    }
}

/// A diff shows every line of its clusters, in order, each in a row of its own, with a gap between
/// each two clusters; all rows number their lines in a column as wide as the largest number.
pub proof fn a_diff_shows_every_line(groups: Seq<Seq<DiffChangeView>>, width: nat)
    ensures
        diff_rows(groups, width) == Seq::new(
            groups.len(),
            |g: int|
                (if g > 0 {
                    Seq::new(width + 2, |i: int| ' ') + seq!['⋮', '\n']
                } else {
                    Seq::empty()
                }) + groups[g].map_values(|c: DiffChangeView| diff_row(c, width)).flatten(),
        ).flatten(),
        forall|g: int, c: int|
            0 <= g < groups.len() && 0 <= c < groups[g].len() ==> (number_of(
                #[trigger] groups[g][c],
            ) matches Some(n) ==> n <= all_widest(groups)),
    decreases groups.len(),
{
    let f = |g: int|
        (if g > 0 {
            Seq::new(width + 2, |i: int| ' ') + seq!['⋮', '\n']
        } else {
            Seq::<char>::empty()
        }) + groups[g].map_values(|c: DiffChangeView| diff_row(c, width)).flatten();
    let parts = Seq::new(groups.len(), f);
    if groups.len() > 0 {
        let init = groups.drop_last();
        let last = groups.last();
        a_diff_shows_every_line(init, width);
        let h = |g: int|
            (if g > 0 {
                Seq::new(width + 2, |i: int| ' ') + seq!['⋮', '\n']
            } else {
                Seq::<char>::empty()
            }) + init[g].map_values(|c: DiffChangeView| diff_row(c, width)).flatten();
        let before = Seq::new(init.len(), h);
        let k = groups.len() - 1;
        assert forall|g: int| 0 <= g < k implies before[g] == parts[g] by {
            assert(init[g] == groups[g]);
        }
        assert(parts =~= before.push(f(k)));
        before.lemma_flatten_push(f(k));
        lemma_cluster_rows(last, width);
        reveal_strlit("  ⋮\n");
        assert(text::repeated(' ', width) + "  ⋮\n"@ =~= Seq::new(width + 2, |i: int| ' ') + seq![
            '⋮',
            '\n',
        ]);
        if groups.len() == 1 {
            assert(before =~= Seq::empty());
            assert(diff_rows(groups, width) =~= before.flatten() + f(k));
        } else {
            assert(diff_rows(groups, width) =~= before.flatten() + f(k));
        }
        assert forall|g: int, c: int|
            0 <= g < groups.len() && 0 <= c < groups[g].len() implies (number_of(
            #[trigger] groups[g][c],
        ) matches Some(n) ==> n <= all_widest(groups)) by {
            if g < init.len() {
                assert(init[g][c] == groups[g][c]);
            } else {
                lemma_widest(last, c);
            }
        }
    } else {
        assert(parts =~= Seq::empty());
    }
}

proof fn lemma_widest(group: Seq<DiffChangeView>, c: int)
    requires
        0 <= c < group.len(),
    ensures
        number_of(group[c]) matches Some(n) ==> n <= widest(group),
    decreases group.len(),
{
    if c < group.len() - 1 {
        lemma_widest(group.drop_last(), c);
    }
}

proof fn lemma_cluster_rows(group: Seq<DiffChangeView>, width: nat)
    ensures
        cluster_rows(group, width) == group.map_values(
            |c: DiffChangeView| diff_row(c, width),
        ).flatten(),
    decreases group.len(),
{
    let f = |c: DiffChangeView| diff_row(c, width);
    if group.len() == 0 {
        assert(group.map_values(f) =~= Seq::empty());
    } else {
        let init = group.drop_last();
        lemma_cluster_rows(init, width);
        assert(group.map_values(f) =~= init.map_values(f).push(f(group.last())));
        init.map_values(f).lemma_flatten_push(f(group.last()));
    }
}

/// What fits the output budget is shown as it is; of the rest as much as fits is shown, and then
/// that something is missing.
pub proof fn what_fits_is_shown(s: Seq<char>, note: Seq<char>) -> (n: int)
    ensures
        0 <= n <= s.len(),
        byte_size(s.take(n)) <= MAX_OUTPUT_BYTES,
        n < s.len() ==> byte_size(s.take(n + 1)) > MAX_OUTPUT_BYTES,
        n == s.len() ==> capped(s, note) == s,
        n < s.len() ==> capped(s, note) == s.take(n) + seq!['\n', '…', ' '] + note,
{
    reveal_strlit("\n… ");
    assert("\n… "@ =~= seq!['\n', '…', ' ']);
    cut_is_the_longest_fit(s, MAX_OUTPUT_BYTES as nat);
    assert(s.take(s.len() as int) =~= s);
    let n = cut(s, MAX_OUTPUT_BYTES as nat).len() as int;
    if byte_size(s) <= MAX_OUTPUT_BYTES {
        s.len() as int
    } else {
        n
    }
}

} // verus!

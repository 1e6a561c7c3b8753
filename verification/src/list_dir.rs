//! The `list_dir` tool: one directory level.

use vstd::prelude::*;
use crate::paths::AbsPath;
use crate::protocol::{block_views, one_text, BlockView, ContentBlock};
use crate::support;
use crate::support::{displayed, resolution};
use crate::text;
use crate::text::{in_order, texts};
use crate::tool::{ToolCapabilities, ToolDescription, ToolError, ToolErrorView, ToolId, ToolKind};

verus! {

/// The most entries that a listing shows.
pub const MAX_ENTRIES: usize = 500;

/// What the tool is called with.
#[derive(Debug, PartialEq, Eq)]
pub struct ListDirArgs {
    /// Directory to list. Defaults to the workspace root.
    pub path: Option<String>,
}

/// What the tool answers with.
#[derive(Debug, PartialEq, Eq)]
pub struct ListDirOutput {
    pub path: String,
    pub entries: Vec<String>,
    pub truncated: bool,
}

/// The entries one per line.
pub open spec fn entry_lines(entries: Seq<Seq<char>>) -> Seq<char>
    decreases entries.len(),
{
    if entries.len() == 0 {
        Seq::empty()
    } else {
        entry_lines(entries.drop_last()) + entries.last() + "\n"@
    }
}

/// What the model sees of a listing.
pub open spec fn listing_report(path: Seq<char>, entries: Seq<Seq<char>>, truncated: bool) -> Seq<
    char,
> {
    let head = path + ":\n"@;
    let body = if entries.len() == 0 {
        head + "(empty)\n"@
    } else {
        head + entry_lines(entries)
    };
    if truncated {
        body + "… more than 500 entries, list truncated\n"@
    } else {
        body
    }
}

impl ListDirOutput {
    /// What the model sees of the outcome.
    pub fn render(&self) -> (r: Vec<ContentBlock>)
        ensures
            block_views(r@) == seq![
                BlockView::Text {
                    text: listing_report(self.path@, texts(self.entries@), self.truncated),
                },
            ],
    {
        let mut report = text::concat(self.path.as_str(), ":\n");
        let ghost head = report@;
        let ghost all = texts(self.entries@);
        if self.entries.len() == 0 {
            report.append("(empty)\n");
        } else {
            let mut i: usize = 0;
            assert(head + entry_lines(all.take(0)) =~= head);
            while i < self.entries.len()
                invariant
                    i <= self.entries.len(),
                    all == texts(self.entries@),
                    report@ == head + entry_lines(all.take(i as int)),
                decreases self.entries.len() - i,
            {
                assert(all.take(i as int + 1).drop_last() =~= all.take(i as int));
                report.append(self.entries[i].as_str());
                report.append("\n");
                assert(report@ =~= head + entry_lines(all.take(i as int + 1)));
                i += 1;
            }
            assert(all.take(i as int) =~= all);
        }
        if self.truncated {
            report.append("… more than 500 entries, list truncated\n");
        }
        one_text(report.as_str())
    }
}

/// An entry of a directory, as the walk hands it out.
#[derive(Debug, PartialEq, Eq)]
pub struct DirEntry {
    pub name: String,
    pub is_dir: bool,
}

/// How an entry is listed: a directory with a slash behind its name.
pub open spec fn listed(name: Seq<char>, is_dir: bool) -> Seq<char> {
    if is_dir {
        name + "/"@
    } else {
        name
    }
}

/// How the first `n` entries of a walk are listed, in the order of the walk.
pub open spec fn listed_first(found: Seq<DirEntry>, n: int) -> Seq<Seq<char>> {
    Seq::new(n as nat, |i: int| listed(found[i].name@, found[i].is_dir))
}

/// Where a listing starts, or why it does not.
pub open spec fn target_of(workspace_root: Seq<char>, path: Option<Seq<char>>) -> Result<
    Seq<char>,
    ToolErrorView,
> {
    match path {
        Some(path) => resolution(workspace_root, path),
        None => Ok(workspace_root),
    }
}

/// Lists one directory level, honoring `.gitignore`.
pub struct ListDir;

impl ListDir {
    pub fn id(&self) -> (r: ToolId)
        ensures
            r@ == "list_dir"@,
    {
        ToolId::new("list_dir")
    }

    pub fn description(&self) -> (r: ToolDescription)
        ensures
            r.text@
                == "List the immediate entries of a workspace directory, one per line, with a trailing `/` on directories. Gitignored and hidden entries are omitted."@,
    {
        ToolDescription::new(
            "List the immediate entries of a workspace directory, one per line, with a trailing `/` on directories. Gitignored and hidden entries are omitted.",
        )
    }

    pub fn capabilities(&self) -> (r: ToolCapabilities)
        ensures
            r == (ToolCapabilities {
                kind: ToolKind::Read,
                concurrency_safe: true,
                timeout_millis: None,
            }),
    {
        ToolCapabilities::of_kind(ToolKind::Read)
    }

    /// The directory to list.
    pub fn target(workspace_root: &AbsPath, args: &ListDirArgs) -> (r: Result<AbsPath, ToolError>)
        ensures
            match target_of(workspace_root@, text::opt(args.path)) {
                Ok(path) => r is Ok && r->Ok_0@ == path,
                Err(error) => r is Err && r->Err_0@ == error,
            },
    {
        match &args.path {
            Some(path) => support::resolve(workspace_root, path.as_str()),
            None => Ok(workspace_root.clone()),
        }
    }

    /// The failure of a listing that did not come to an end.
    pub fn list_failed(error: &str) -> (r: ToolError)
        ensures
            r@ == (ToolErrorView::Execution { code: "list_failed"@, message: error@ }),
    {
        ToolError::custom("list_failed", text::copy(error))
    }

    /// The failure of a listing of something else.
    pub fn not_a_directory(workspace_root: &AbsPath, target: &AbsPath) -> (r: ToolError)
        ensures
            r@ == (ToolErrorView::Execution {
                code: "not_a_directory"@,
                message: displayed(workspace_root@, target@) + ": not a directory"@,
            }),
    {
        let shown = support::display(workspace_root, target);
        ToolError::custom("not_a_directory", text::concat(shown.as_str(), ": not a directory"))
    }

    /// The listing of `target`, where the walk found these entries: the first of them up to
    /// the limit, in the order of their names.
    pub fn listing(workspace_root: &AbsPath, target: &AbsPath, found: &Vec<DirEntry>) -> (r:
        ListDirOutput)
        ensures
            r.path@ == displayed(workspace_root@, target@),
            in_order(texts(r.entries@)),
            texts(r.entries@).to_multiset() == listed_first(
                found@,
                if found.len() < MAX_ENTRIES {
                    found.len() as int
                } else {
                    MAX_ENTRIES as int
                },
            ).to_multiset(),
            r.truncated == (found.len() > MAX_ENTRIES),
    {
        let mut entries: Vec<String> = Vec::new();
        let mut i: usize = 0;
        while i < found.len() && i < MAX_ENTRIES
            invariant
                i <= found.len(),
                i <= MAX_ENTRIES,
                entries.len() == i,
                forall|k: int|
                    0 <= k < i ==> (#[trigger] entries@[k])@ == listed(
                        found@[k].name@,
                        found@[k].is_dir,
                    ),
            decreases found.len() - i,
        {
            entries.push(
                if found[i].is_dir {
                    text::concat(found[i].name.as_str(), "/")
                } else {
                    found[i].name.clone()
                },
            );
            i += 1;
        }
        assert(texts(entries@) =~= listed_first(found@, i as int));
        let truncated = found.len() > MAX_ENTRIES;
        ListDirOutput {
            path: support::display(workspace_root, target),
            entries: text::sort(entries),
            truncated,
        }
    }
}

// Laws.

/// A listing has a line for every entry, in their order, behind the line of its directory.
pub proof fn every_entry_has_its_line(path: Seq<char>, entries: Seq<Seq<char>>)
    requires
        entries.len() > 0,
    ensures
        listing_report(path, entries, false) == path + seq![':', '\n'] + entries.map_values(
            |entry: Seq<char>| entry.push('\n'),
        ).flatten(),
        listing_report(path, entries, true).len() > listing_report(path, entries, false).len(),
        listing_report(path, entries, true).take(
            listing_report(path, entries, false).len() as int,
        ) == listing_report(path, entries, false),
{
    reveal_strlit(":\n");
    reveal_strlit("… more than 500 entries, list truncated\n");
    assert(":\n"@ =~= seq![':', '\n']);
    lemma_entry_lines(entries);
    let whole = listing_report(path, entries, false);
    assert(listing_report(path, entries, true).take(whole.len() as int) =~= whole);
}

proof fn lemma_entry_lines(entries: Seq<Seq<char>>)
    ensures
        entry_lines(entries) == entries.map_values(
            |entry: Seq<char>| entry.push('\n'),
        ).flatten(),
    decreases entries.len(),
{
    let f = |entry: Seq<char>| entry.push('\n');
    reveal_strlit("\n");
    if entries.len() == 0 {
        assert(entries.map_values(f) =~= Seq::empty());
    } else {
        let init = entries.drop_last();
        lemma_entry_lines(init);
        assert(entries.map_values(f) =~= init.map_values(f).push(f(entries.last())));
        init.map_values(f).lemma_flatten_push(f(entries.last()));
        assert(entry_lines(entries) =~= entry_lines(init) + f(entries.last()));
    }
}

/// Directories are told from files by the slash behind their names, and nothing else of a name
/// changes.
pub proof fn a_directory_is_marked(name: Seq<char>)
    ensures
        listed(name, true) == name.push('/'),
        listed(name, false) == name,
{
    reveal_strlit("/");
    assert(listed(name, true) =~= name.push('/'));
}

} // verus!

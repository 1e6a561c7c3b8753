//! The `write_file` tool: one whole file.

use vstd::prelude::*;
use vstd::string::StringSliceAdditionalSpecFns;
use crate::apply_patch::diff_of;
use crate::paths::AbsPath;
use crate::protocol::{block_views, one_text, BlockView, ContentBlock};
use crate::support;
use crate::support::{displayed, LineDiff, LineDiffView};
use crate::text;
use crate::text::decimal_of;
use crate::tool::{ToolCapabilities, ToolDescription, ToolError, ToolErrorView, ToolId, ToolKind};

verus! {

/// What the tool is called with.
#[derive(Debug, PartialEq, Eq)]
pub struct WriteFileArgs {
    /// Path to write, absolute or relative to the workspace root.
    pub path: String,
    /// Full new contents of the file.
    pub content: String,
}

/// What the tool answers with.
#[derive(Debug, PartialEq, Eq)]
pub struct WriteFileOutput {
    pub path: String,
    pub bytes: usize,
    /// Whether this call created the file.
    pub created: bool,
    /// Lines added and removed relative to the previous contents; none for a new file, as
    /// there is nothing to diff against.
    pub diff: Option<LineDiff>,
}

/// What a diff that may be missing says.
pub open spec fn opt_diff(diff: Option<LineDiff>) -> Option<LineDiffView> {
    match diff {
        Some(diff) => Some(diff@),
        None => None,
    }
}

/// What the model sees of a written file.
pub open spec fn write_report(
    path: Seq<char>,
    bytes: nat,
    created: bool,
    diff: Option<LineDiffView>,
) -> Seq<char> {
    let verb = if created {
        "created"@
    } else {
        "updated"@
    };
    let changes = match diff {
        Some(diff) => if diff.added == 0 && diff.removed == 0 {
            Seq::empty()
        } else {
            ", +"@ + decimal_of(diff.added) + " -"@ + decimal_of(diff.removed)
        },
        None => Seq::empty(),
    };
    verb + " "@ + path + " ("@ + decimal_of(bytes) + " bytes"@ + changes + ")"@
}

impl WriteFileOutput {
    /// What the model sees of the outcome.
    pub fn render(&self) -> (r: Vec<ContentBlock>)
        ensures
            block_views(r@) == seq![
                BlockView::Text {
                    text: write_report(
                        self.path@,
                        self.bytes as nat,
                        self.created,
                        opt_diff(self.diff),
                    ),
                },
            ],
    {
        let verb = if self.created {
            "created"
        } else {
            "updated"
        };
        let mut report = text::concat3(verb, " ", self.path.as_str());
        report.append(" (");
        let bytes = text::decimal(self.bytes as u64);
        report.append(bytes.as_str());
        report.append(" bytes");
        let mut changes = String::new();
        if let Some(diff) = &self.diff {
            if diff.added != 0 || diff.removed != 0 {
                let added = text::decimal(diff.added as u64);
                changes = text::concat3(", +", added.as_str(), " -");
                let removed = text::decimal(diff.removed as u64);
                changes.append(removed.as_str());
            }
        }
        assert(changes@ =~= (match opt_diff(self.diff) {
            Some(diff) => if diff.added == 0 && diff.removed == 0 {
                Seq::empty()
            } else {
                ", +"@ + decimal_of(diff.added) + " -"@ + decimal_of(diff.removed)
            },
            None => Seq::empty(),
        }));
        report.append(changes.as_str());
        report.append(")");
        one_text(report.as_str())
    }
}

/// Writes a whole file, creating parents as needed.
pub struct WriteFile;

impl WriteFile {
    pub fn id(&self) -> (r: ToolId)
        ensures
            r@ == "write_file"@,
    {
        ToolId::new("write_file")
    }

    pub fn description(&self) -> (r: ToolDescription)
        ensures
            r.text@
                == "Write a file inside the workspace, replacing any existing contents and creating parent directories. Supply the complete file, not a fragment."@,
    {
        ToolDescription::new(
            "Write a file inside the workspace, replacing any existing contents and creating parent directories. Supply the complete file, not a fragment.",
        )
    }

    pub fn capabilities(&self) -> (r: ToolCapabilities)
        ensures
            r == (ToolCapabilities {
                kind: ToolKind::Edit,
                concurrency_safe: false,
                timeout_millis: None,
            }),
    {
        ToolCapabilities::of_kind(ToolKind::Edit)
    }

    /// The outcome of a write to `path`. `previous` is what the file held, where it existed
    /// and could be read.
    pub fn written(
        workspace_root: &AbsPath,
        path: &AbsPath,
        content: &str,
        existed: bool,
        previous: Option<String>,
    ) -> (r: WriteFileOutput)
        ensures
            r.path@ == displayed(workspace_root@, path@),
            r.bytes == vstd::utf8::encode_utf8(content@).len(),
            r.created == !existed,
            opt_diff(r.diff) == (match previous {
                Some(previous) => if existed {
                    Some(diff_of(previous@, content@))
                } else {
                    None
                },
                None => None,
            }),
    {
        assert(content.spec_bytes() == vstd::utf8::encode_utf8(content@));
        WriteFileOutput {
            path: support::display(workspace_root, path),
            bytes: content.as_bytes().len(),
            created: !existed,
            diff: match previous {
                Some(previous) => if existed {
                    Some(support::line_diff(previous.as_str(), content))
                } else {
                    None
                },
                None => None,
            },
        }
    }

    /// The failure of a write.
    pub fn write_failed(workspace_root: &AbsPath, path: &AbsPath, error: &str) -> (r: ToolError)
        ensures
            r@ == (ToolErrorView::Execution {
                code: "write_failed"@,
                message: displayed(workspace_root@, path@) + ": "@ + error@,
            }),
    {
        let shown = support::display(workspace_root, path);
        ToolError::custom("write_failed", text::concat3(shown.as_str(), ": ", error))
    }
}

// Laws.

/// The report of a write says whether the file is new, which it is and how large it is now; and
/// what changed, just where anything did.
pub proof fn a_write_says_what_it_did(
    path: Seq<char>,
    bytes: nat,
    created: bool,
    diff: Option<LineDiffView>,
)
    ensures
        ({
            let changed = diff is Some && (diff->0.added > 0 || diff->0.removed > 0);
            let head = (if created {
                "created "@
            } else {
                "updated "@
            }) + path + " ("@ + decimal_of(bytes) + " bytes"@;
            &&& !changed ==> write_report(path, bytes, created, diff) == head + ")"@
            &&& changed ==> write_report(path, bytes, created, diff) == head + ", +"@ + decimal_of(
                diff->0.added,
            ) + " -"@ + decimal_of(diff->0.removed) + ")"@
        }),
{
    reveal_strlit("created ");
    reveal_strlit("updated ");
    reveal_strlit("created");
    reveal_strlit("updated");
    reveal_strlit(" ");
    assert("created"@ + " "@ =~= "created "@);
    assert("updated"@ + " "@ =~= "updated "@);
    let changed = diff is Some && (diff->0.added > 0 || diff->0.removed > 0);
    let head = (if created {
        "created "@
    } else {
        "updated "@
    }) + path + " ("@ + decimal_of(bytes) + " bytes"@;
    if changed {
        assert(write_report(path, bytes, created, diff) =~= head + ", +"@ + decimal_of(
            diff->0.added,
        ) + " -"@ + decimal_of(diff->0.removed) + ")"@);
    } else {
        assert(write_report(path, bytes, created, diff) =~= head + ")"@);
    }
}

} // verus!

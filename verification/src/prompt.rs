//! Turn context the built-in tools need in front of the model.
//!
//! `apply_patch` takes one string in a grammar the model must produce exactly, and a tool
//! description is a poor place for a grammar. The format therefore travels as a context
//! fragment of its own.

use vstd::prelude::*;
use crate::plugin_api::ContextFragment;

verus! {

/// Tool guidance sorts after the harness identity and the deployment persona.
pub const ORDER_TOOL_GUIDANCE: i32 = 100;

/// The `apply_patch` patch language.
///
/// Wording that drifts from what models were trained on costs accuracy, so this text keeps to
/// the published format rather than being rephrased for taste.
pub const APPLY_PATCH_FORMAT: &'static str = r#"# `apply_patch`

Use the `apply_patch` tool to edit files. Its `patch` argument is a
file-oriented diff format — an envelope holding one or more file sections:

*** Begin Patch
[ one or more file sections ]
*** End Patch

Each section starts with one of three headers:

*** Add File: <path> - create a new file. Every following line is a `+` line holding the initial contents.
*** Delete File: <path> - remove an existing file. Nothing follows.
*** Update File: <path> - patch an existing file in place.

An update may be followed immediately by `*** Move to: <new path>` to rename
the file, and then by one or more hunks. Each hunk opens with `@@`, optionally
followed by the name of the enclosing function or class. Within a hunk every
line starts with ` ` for context, `-` to remove, or `+` to add.

Give three lines of context above and below each change. If a change is within
three lines of a previous change, do not repeat the shared lines in both hunks.
If three lines of context do not uniquely identify the location, name the
enclosing scope after `@@`, and repeat `@@` to narrow further:

@@ class BaseClass
@@     def method():
[3 lines of pre-context]
-[old_code]
+[new_code]
[3 lines of post-context]

End a hunk with `*** End of File` when it matches the end of the file.

The full grammar:

Patch := Begin { FileOp } End
Begin := "*** Begin Patch" NEWLINE
End := "*** End Patch" NEWLINE
FileOp := AddFile | DeleteFile | UpdateFile
AddFile := "*** Add File: " path NEWLINE { "+" line NEWLINE }
DeleteFile := "*** Delete File: " path NEWLINE
UpdateFile := "*** Update File: " path NEWLINE [ MoveTo ] { Hunk }
MoveTo := "*** Move to: " newPath NEWLINE
Hunk := "@@" [ header ] NEWLINE { HunkLine } [ "*** End of File" NEWLINE ]
HunkLine := (" " | "-" | "+") text NEWLINE

One patch may combine several operations:

*** Begin Patch
*** Add File: hello.txt
+Hello world
*** Update File: src/app.py
*** Move to: src/main.py
@@ def greet():
-print("Hi")
+print("Hello, world!")
*** Delete File: obsolete.txt
*** End Patch

Paths are relative to the workspace root. A patch applies whole or not at all,
so a failure leaves every file untouched — do not re-read files to check
whether a patch landed; the call fails if it did not. Prefer `apply_patch` for
a change spanning several files, and `edit` for a single exact replacement."#;

/// The patch-format guidance, as the tools contribute it to a turn.
pub fn tool_guidance() -> (r: ContextFragment)
    ensures
        r.name@ == "tools/apply-patch-format"@,
        r.order == ORDER_TOOL_GUIDANCE,
        r.text@ == APPLY_PATCH_FORMAT@,
{
    ContextFragment::new("tools/apply-patch-format", ORDER_TOOL_GUIDANCE, APPLY_PATCH_FORMAT)
}

} // verus!

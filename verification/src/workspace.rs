//! The project being worked in: where its root is, what its version control says, and what a
//! command in it came to.
//!
//! The containment rule lives here and is not optional: a path that escapes the workspace root is
//! an error, never a clamped path. Silently clamping turns a traversal attempt into a successful
//! read of the wrong file.

use vstd::prelude::*;
use crate::paths;
use crate::paths::{
    below, climbs, components_of, contained, is_absolute, normalized, path_error_message,
    path_joined, AbsPath, PathError, PathErrorView, RelPath,
};
use crate::text;
use crate::text::{decimal_of, lines_of, lossy, opt, texts, trimmed};

verus! {

/// Why a workspace operation failed.
#[derive(Debug, PartialEq, Eq)]
pub enum WorkspaceError {
    /// The path resolved outside the workspace root.
    Escapes { path: String, root: String },
    /// The filesystem failed.
    Io { path: String, source: String },
    Path(PathError),
    Timeout { millis: u64 },
}

/// What a [`WorkspaceError`] says.
pub enum WorkspaceErrorView {
    Escapes { path: Seq<char>, root: Seq<char> },
    Io { path: Seq<char>, source: Seq<char> },
    Path(PathErrorView),
    Timeout { millis: u64 },
}

impl View for WorkspaceError {
    type V = WorkspaceErrorView;

    open spec fn view(&self) -> WorkspaceErrorView {
        match self {
            WorkspaceError::Escapes { path, root } => WorkspaceErrorView::Escapes {
                path: path@,
                root: root@,
            },
            WorkspaceError::Io { path, source } => WorkspaceErrorView::Io {
                path: path@,
                source: source@,
            },
            WorkspaceError::Path(error) => WorkspaceErrorView::Path(error@),
            WorkspaceError::Timeout { millis } => WorkspaceErrorView::Timeout { millis: *millis },
        }
    }
}

/// The sentence that a workspace error is shown as.
pub open spec fn error_message(error: WorkspaceErrorView) -> Seq<char> {
    match error {
        WorkspaceErrorView::Escapes { path, root } => path + " is outside the workspace root "@
            + root,
        WorkspaceErrorView::Io { path, source } => path + ": "@ + source,
        WorkspaceErrorView::Path(error) => path_error_message(error),
        WorkspaceErrorView::Timeout { millis } => "command timed out after "@ + decimal_of(
            millis as nat,
        ) + "ms"@,
    }
}

impl WorkspaceError {
    /// The sentence that this error is shown as.
    pub fn message(&self) -> (r: String)
        ensures
            r@ == error_message(self@),
    {
        match self {
            WorkspaceError::Escapes { path, root } => text::concat3(
                path.as_str(),
                " is outside the workspace root ",
                root.as_str(),
            ),
            WorkspaceError::Io { path, source } => text::concat3(
                path.as_str(),
                ": ",
                source.as_str(),
            ),
            WorkspaceError::Path(error) => error.message(),
            WorkspaceError::Timeout { millis } => {
                let number = text::decimal(*millis);
                text::concat3("command timed out after ", number.as_str(), "ms")
            },
        }
    }
}

/// What the filesystem makes of a path.
#[derive(Debug, PartialEq, Eq)]
pub enum Canonical {
    /// It exists, and this is where it really is.
    Real(String),
    /// It does not exist.
    NotFound,
    /// It could not be looked at.
    Failed(String),
}

/// What a [`Canonical`] says.
pub enum CanonicalView {
    Real(Seq<char>),
    NotFound,
    Failed(Seq<char>),
}

impl View for Canonical {
    type V = CanonicalView;

    open spec fn view(&self) -> CanonicalView {
        match self {
            Canonical::Real(path) => CanonicalView::Real(path@),
            Canonical::NotFound => CanonicalView::NotFound,
            Canonical::Failed(source) => CanonicalView::Failed(source@),
        }
    }
}

/// Where a path is: where the filesystem says it really is, or, where there is nothing yet, where
/// its spelling says.
pub open spec fn located(whole: Seq<char>, found: CanonicalView) -> Result<
    Seq<char>,
    WorkspaceErrorView,
> {
    match found {
        CanonicalView::Failed(source) => Err(WorkspaceErrorView::Io { path: whole, source }),
        CanonicalView::Real(actual) => if is_absolute(actual) {
            Ok(actual)
        } else {
            Err(WorkspaceErrorView::Path(PathErrorView::NotAbsolute(actual)))
        },
        CanonicalView::NotFound => Ok(normalized(whole, false)),
    }
}

/// The root that a path is held against: where it really is, where that is known.
pub open spec fn real_root(root: Seq<char>, actual: Option<Seq<char>>) -> Seq<char> {
    match actual {
        Some(actual) => if is_absolute(actual) {
            actual
        } else {
            root
        },
        None => root,
    }
}

/// Whether the place that was found for a path is inside the workspace: under the root where it
/// really is, or, for a path that only its spelling places, under the root that is placed by its
/// spelling too.
pub open spec fn inside(
    resolved: Seq<char>,
    root: Seq<char>,
    found: CanonicalView,
    actual: Option<Seq<char>>,
) -> bool {
    contained(resolved, real_root(root, actual)) || (found is NotFound && contained(
        resolved,
        normalized(root, false),
    ))
}

/// What a path resolves to.
pub open spec fn resolution(
    root: Seq<char>,
    path: Seq<char>,
    found: CanonicalView,
    actual: Option<Seq<char>>,
) -> Result<Seq<char>, WorkspaceErrorView> {
    match located(path_joined(root, path), found) {
        Err(error) => Err(error),
        Ok(resolved) => if inside(resolved, root, found, actual) {
            Ok(resolved)
        } else {
            Err(WorkspaceErrorView::Escapes { path: resolved, root: real_root(root, actual) })
        },
    }
}

/// The project being worked in.
#[derive(Debug, PartialEq, Eq)]
pub struct Workspace {
    root: AbsPath,
}

impl View for Workspace {
    type V = Seq<char>;

    closed spec fn view(&self) -> Seq<char> {
        self.root@
    }
}

impl Workspace {
    /// The workspace with this root.
    pub fn new(root: AbsPath) -> (r: Workspace)
        ensures
            r@ == root@,
    {
        Workspace { root }
    }

    /// The root.
    pub fn root(&self) -> (r: &AbsPath)
        ensures
            r@ == self@,
    {
        &self.root
    }

    /// The path to ask the filesystem about for a user- or model-supplied one.
    pub fn joined(&self, path: &str) -> (r: String)
        ensures
            r@ == path_joined(self@, path@),
    {
        paths::join_paths(self.root.as_str(), path)
    }

    /// Resolves a user- or model-supplied path against the workspace root, given what the
    /// filesystem makes of it and where the root really is.
    ///
    /// Symlinks are resolved before the containment check when the path exists, so a symlink
    /// pointing outside the workspace cannot be used to step past the root. A path that does not
    /// exist yet is checked by its spelling, which is what lets a tool create a new file: under
    /// the root as it is spelled too, since that may be a symlink, and folded as the path is.
    pub fn resolve(&self, path: &str, found: Canonical, actual: Option<String>) -> (r: Result<
        AbsPath,
        WorkspaceError,
    >)
        ensures
            match resolution(self@, path@, found@, opt(actual)) {
                Ok(resolved) => r is Ok && r->Ok_0@ == resolved,
                Err(error) => r is Err && r->Err_0@ == error,
            },
    {
        let root = self.root.as_str();
        let whole = paths::join_paths(root, path);
        proof {
            assert(is_absolute(root@));
            assert(is_absolute(whole@)) by {
                if !is_absolute(path@) {
                    assert(whole@[0] == '/');
                }
            }
            paths::lemma_normalized(whole@, false);
        }
        let missing = matches!(found, Canonical::NotFound);
        let spelled = normalize_lexically(root);
        let resolved = match found {
            Canonical::Failed(source) => {
                return Err(WorkspaceError::Io { path: whole, source });
            },
            Canonical::Real(path) => AbsPath::new(path.as_str()),
            Canonical::NotFound => {
                let folded = normalize_lexically(whole.as_str());
                AbsPath::new(folded.as_str())
            },
        };
        let resolved = match resolved {
            Ok(resolved) => resolved,
            Err(error) => {
                return Err(WorkspaceError::Path(error));
            },
        };
        let root = match actual {
            Some(actual) => match AbsPath::new(actual.as_str()) {
                Ok(actual) => actual,
                Err(_) => self.root.clone(),
            },
            None => self.root.clone(),
        };
        if resolved.is_contained_in(&root) || (missing && paths::lies_under(
            resolved.as_str(),
            spelled.as_str(),
        )) {
            Ok(resolved)
        } else {
            Err(
                WorkspaceError::Escapes {
                    path: text::copy(resolved.as_str()),
                    root: text::copy(root.as_str()),
                },
            )
        }
    }

    /// Expresses an absolute path relative to the root, for display.
    pub fn relativize(&self, path: &AbsPath) -> (r: Result<RelPath, WorkspaceError>)
        ensures
            r is Ok <==> contained(path@, self@),
            r is Ok ==> r->Ok_0@ == below(path@, self@),
            r is Err ==> r->Err_0@ == WorkspaceErrorView::Path(
                PathErrorView::NotContained { root: self@, child: path@ },
            ),
    {
        match path.strip_root(&self.root) {
            Ok(rel) => Ok(rel),
            Err(error) => Err(WorkspaceError::Path(error)),
        }
    }
}

/// Collapses `.` and `..` without touching the filesystem. Used only for paths that do not exist
/// yet.
pub fn normalize_lexically(path: &str) -> (r: String)
    ensures
        r@ == normalized(path@, false),
{
    paths::normalize(path, false)
}

/// A path that is not refused lies under the root, wherever its links lead: where it exists, the
/// place held against the root is the one the filesystem says it really is.
pub proof fn an_escape_is_never_clamped(
    root: Seq<char>,
    path: Seq<char>,
    found: CanonicalView,
    actual: Option<Seq<char>>,
)
    requires
        resolution(root, path, found, actual) is Ok,
    ensures
        contained(resolution(root, path, found, actual)->Ok_0, real_root(root, actual)) || (
        found is NotFound && contained(
            resolution(root, path, found, actual)->Ok_0,
            normalized(root, false),
        )),
        found is Real ==> resolution(root, path, found, actual)->Ok_0 == found->Real_0,
{
}

/// A tool can create a new file: a path that does not exist yet resolves, wherever the root really
/// is and however it is spelled, if it is relative and does not climb, or if it lies under the
/// root anyhow.
pub proof fn a_new_file_can_be_made(root: Seq<char>, path: Seq<char>, actual: Option<Seq<char>>)
    requires
        is_absolute(root),
        (!is_absolute(path) && !climbs(path)) || contained(path_joined(root, path), root),
    ensures
        resolution(root, path, CanonicalView::NotFound, actual) == Ok::<
            Seq<char>,
            WorkspaceErrorView,
        >(normalized(path_joined(root, path), false)),
{
    let whole = path_joined(root, path);
    if is_absolute(path) {
        assert(is_absolute(whole));
    } else {
        assert(whole[0] == '/');
        paths::join_then_strip_round_trips(root, path);
    }
    paths::lemma_folded_contained(whole, root);
}

/// A path that does not exist yet resolves without a `.` or a `..` in it.
pub proof fn a_new_path_is_folded(
    root: Seq<char>,
    path: Seq<char>,
    actual: Option<Seq<char>>,
    i: int,
)
    requires
        is_absolute(root),
        resolution(root, path, CanonicalView::NotFound, actual) is Ok,
        1 <= i < components_of(resolution(root, path, CanonicalView::NotFound, actual)->Ok_0).len(),
    ensures
        components_of(resolution(root, path, CanonicalView::NotFound, actual)->Ok_0)[i] != seq!['.'],
        components_of(resolution(root, path, CanonicalView::NotFound, actual)->Ok_0)[i] != seq![
            '.',
            '.',
        ],
{
    let whole = path_joined(root, path);
    assert(is_absolute(whole)) by {
        if !is_absolute(path) {
            assert(whole[0] == '/');
        }
    }
    paths::lemma_components_rooted(whole);
    paths::lemma_normalized(whole, false);
    paths::lemma_folded_settled(components_of(whole), false);
}

/// What a finished command produced.
#[derive(Debug, PartialEq, Eq)]
pub struct CommandOutcome {
    /// `None` when the process was terminated by a signal.
    pub exit_code: Option<i32>,
    pub stdout: String,
    pub stderr: String,
}

impl CommandOutcome {
    /// Whether the command exited with zero.
    pub fn succeeded(&self) -> (r: bool)
        ensures
            r == (self.exit_code == Some(0i32)),
    {
        match self.exit_code {
            Some(code) => code == 0,
            None => false,
        }
    }
}

/// How running a command ended.
#[derive(Debug, PartialEq, Eq)]
pub enum Run {
    /// It could not be started or waited for.
    Failed(String),
    /// It exited, with this code where it was not killed.
    Exited(Option<i32>),
    /// It took too long.
    TimedOut,
}

/// What running `program` came to. A timeout is reported apart from a failed command, because "it
/// took too long" and "it exited non-zero" call for different responses.
pub fn command_outcome(program: &str, run: Run, stdout: String, stderr: String, millis: u64) -> (r:
    Result<CommandOutcome, WorkspaceError>)
    ensures
        match run {
            Run::Failed(source) => r is Err && r->Err_0@ == (WorkspaceErrorView::Io {
                path: program@,
                source: source@,
            }),
            Run::Exited(code) => r is Ok && r->Ok_0.exit_code == code && r->Ok_0.stdout@
                == stdout@ && r->Ok_0.stderr@ == stderr@,
            Run::TimedOut => r is Err && r->Err_0@ == (WorkspaceErrorView::Timeout { millis }),
        },
{
    match run {
        Run::Failed(source) => Err(WorkspaceError::Io { path: text::copy(program), source }),
        Run::Exited(exit_code) => Ok(CommandOutcome { exit_code, stdout, stderr }),
        Run::TimedOut => Err(WorkspaceError::Timeout { millis }),
    }
}

/// A summary of the working tree.
#[derive(Debug, PartialEq, Eq)]
pub struct VcsStatus {
    pub branch: Option<String>,
    /// Porcelain status lines, capped: a repository mid-rebase can have thousands, and the model
    /// needs the shape, not the enumeration.
    pub changes: Vec<String>,
    /// How many lines were dropped by the cap.
    pub truncated: usize,
}

/// What a [`VcsStatus`] says.
pub struct VcsView {
    pub branch: Option<Seq<char>>,
    pub changes: Seq<Seq<char>>,
    pub truncated: int,
}

impl View for VcsStatus {
    type V = VcsView;

    open spec fn view(&self) -> VcsView {
        VcsView {
            branch: opt(self.branch),
            changes: texts(self.changes@),
            truncated: self.truncated as int,
        }
    }
}

/// The most status lines worth showing the model.
pub const MAX_STATUS_LINES: usize = 40;

/// The first lines of a text, as many as are worth showing.
pub open spec fn shown(lines: Seq<Seq<char>>) -> Seq<Seq<char>> {
    if lines.len() <= MAX_STATUS_LINES {
        lines
    } else {
        lines.take(MAX_STATUS_LINES as int)
    }
}

/// The working tree state that the output of two queries says: the name of the branch, where
/// there is one, and the status line by line, each as it was printed, with the columns it begins
/// with.
pub open spec fn tree_state(branch: Option<Seq<char>>, status: Seq<char>) -> VcsView {
    let lines = lines_of(status);
    VcsView {
        branch: match branch {
            Some(branch) => if trimmed(branch).len() > 0 {
                Some(trimmed(branch))
            } else {
                None
            },
            None => None,
        },
        changes: shown(lines),
        truncated: lines.len() - shown(lines).len(),
    }
}

/// What a query printed, as text.
pub open spec fn printed(output: Option<Vec<u8>>) -> Option<Seq<char>> {
    match output {
        Some(bytes) => Some(lossy(bytes@)),
        None => None,
    }
}

/// The working tree state, given what the queries for the branch and for the status printed, where
/// they did not fail; `None` outside a repository, where there is no status.
///
/// Not being in a repository is normal, not an error: a plain directory has to work too. A
/// repository in which nothing was committed yet has a status and no branch.
pub fn vcs_status(branch: Option<Vec<u8>>, status: Option<Vec<u8>>) -> (r: Option<VcsStatus>)
    ensures
        match printed(status) {
            Some(status) => r is Some && r->0@ == tree_state(printed(branch), status),
            None => r is None,
        },
{
    match status {
        Some(status) => {
            let branch = match branch {
                Some(branch) => {
                    let decoded = text::from_utf8_lossy(&branch);
                    let branch = text::trim(decoded.as_str());
                    if branch.as_str().unicode_len() > 0 {
                        Some(branch)
                    } else {
                        None
                    }
                },
                None => None,
            };
            let decoded = text::from_utf8_lossy(&status);
            let mut changes = text::lines(decoded.as_str());
            let ghost lines = texts(changes@);
            assert(lines.len() == changes.len());
            let truncated: usize = if changes.len() > MAX_STATUS_LINES {
                changes.len() - MAX_STATUS_LINES
            } else {
                0
            };
            changes.truncate(MAX_STATUS_LINES);
            assert(texts(changes@) =~= shown(lines));
            Some(VcsStatus { branch, changes, truncated })
        },
        None => None,
    }
}

/// Nothing is lost without being counted, and what is shown reads as it was printed.
pub proof fn every_line_is_shown_or_counted(branch: Option<Seq<char>>, status: Seq<char>)
    ensures
        tree_state(branch, status).changes.len() + tree_state(branch, status).truncated
            == lines_of(status).len(),
        tree_state(branch, status).changes.len() <= MAX_STATUS_LINES,
        forall|i: int|
            0 <= i < tree_state(branch, status).changes.len() ==> #[trigger] tree_state(
                branch,
                status,
            ).changes[i] == lines_of(status)[i],
{
}

} // verus!

//! Paths, and what lies where.

use keke::paths::{components, normalize, AbsPath, PathError, RelPath};
use keke::support;
use keke::workspace::{
    command_outcome, normalize_lexically, vcs_status, Canonical, Run, Workspace, WorkspaceError,
};
use std::path::{Component, Path, PathBuf};

const ROOT: &str = "/tmp/keke";

#[test]
fn abs_path_rejects_relative() {
    assert!(matches!(AbsPath::new("src/lib.rs"), Err(PathError::NotAbsolute(_))));
}

#[test]
fn rel_path_rejects_absolute() {
    assert!(matches!(RelPath::new(ROOT), Err(PathError::NotRelative(_))));
}

#[test]
fn join_then_strip_round_trips() {
    let root = AbsPath::new(ROOT).expect("absolute");
    let rel = RelPath::new("a/b.txt").expect("relative");
    let joined = root.join(&rel).expect("join");
    assert!(joined.is_contained_in(&root));
    assert_eq!(joined.strip_root(&root).expect("strip"), rel);
}

#[test]
fn strip_root_rejects_escape() {
    let root = AbsPath::new(ROOT).expect("absolute");
    let outside = AbsPath::new(&format!("{ROOT}-other")).expect("absolute");
    assert!(matches!(outside.strip_root(&root), Err(PathError::NotContained { .. })));
}

#[test]
fn a_rejected_path_is_named() {
    let Err(error) = AbsPath::new("src") else {
        panic!("relative");
    };
    assert_eq!(error.message(), "expected an absolute path, got src");
    let Err(error) = RelPath::new("/src") else {
        panic!("absolute");
    };
    assert_eq!(error.message(), "expected a relative path, got /src");
    let root = AbsPath::new("/w").expect("absolute");
    let Err(error) = AbsPath::new("/v").expect("absolute").strip_root(&root) else {
        panic!("outside");
    };
    assert_eq!(error.message(), "/v is not contained under /w");
}

fn spellings() -> Vec<String> {
    let parts = ["", ".", "..", "a", "b c", "..."];
    let mut all = Vec::new();
    for first in ["", "/"] {
        for a in parts {
            for b in parts {
                for c in parts {
                    all.push(format!("{first}{a}/{b}/{c}"));
                    all.push(format!("{first}{a}//{b}"));
                }
            }
        }
    }
    all.push(String::new());
    all
}

#[test]
fn components_are_those_of_the_platform() {
    for path in spellings() {
        let own = components(&path);
        let platform: Vec<String> = Path::new(&path)
            .components()
            .map(|part| part.as_os_str().to_string_lossy().into_owned())
            .collect();
        assert_eq!(own, platform, "{path:?}");
    }
}

#[test]
fn folding_is_that_of_the_platform() {
    for path in spellings() {
        for keep in [false, true] {
            let mut out = PathBuf::new();
            for part in Path::new(&path).components() {
                match part {
                    Component::CurDir => {}
                    Component::ParentDir => {
                        if !out.pop() && keep {
                            out.push("..");
                        }
                    }
                    other => out.push(other.as_os_str()),
                }
            }
            assert_eq!(Path::new(&normalize(&path, keep)), out.as_path(), "{path:?} {keep}");
        }
    }
}

#[test]
fn containment_is_that_of_the_platform_but_for_an_escape() {
    let roots = ["/", "/a", "/a/", "/a/b c", "/a/..", "/../a", "/b c/../a"];
    for root in roots {
        for path in spellings() {
            let abs = AbsPath::new(root).expect("absolute");
            if let Ok(other) = AbsPath::new(&path) {
                let prefixed = Path::new(&path).starts_with(root);
                let folded = normalize(&path, false);
                let escapes = !Path::new(&folded).starts_with(normalize(root, false));
                let inside = prefixed && !escapes;
                assert_eq!(other.is_contained_in(&abs), inside, "{path:?} in {root:?}");
                match other.strip_root(&abs) {
                    Ok(rel) => {
                        assert!(inside, "{path:?} below {root:?}");
                        assert_eq!(
                            Path::new(rel.as_str()),
                            Path::new(&path).strip_prefix(root).expect("inside"),
                            "{path:?} below {root:?}"
                        );
                        let again = abs.join(&rel).expect("join");
                        assert_eq!(components(again.as_str()), components(&path));
                    }
                    Err(error) => {
                        assert!(!inside, "{path:?} below {root:?}");
                        assert!(matches!(error, PathError::NotContained { .. }));
                    }
                }
            }
        }
    }
}

#[test]
fn tools_refuse_what_the_platform_refuses() {
    for root in ["/", "/a", "/a/b c", "/../a", "/b c/../a"] {
        let abs = AbsPath::new(root).expect("absolute");
        for path in spellings() {
            let whole = normalize(Path::new(root).join(&path).to_str().expect("text"), true);
            let inside = Path::new(&whole).starts_with(root);
            let resolved = support::resolve(&abs, &path).map(|found| found.as_str().to_string());
            assert_eq!(resolved.ok(), inside.then_some(whole), "{path:?} in {root:?}");
        }
    }
}

#[test]
fn tools_resolve_inside_their_workspace() {
    let root = AbsPath::new("/w").expect("absolute");
    let at = |path: &str| support::resolve(&root, path).map(|abs| abs.as_str().to_string());
    assert_eq!(at("src/../lib.rs").expect("inside"), "/w/lib.rs");
    assert_eq!(at("/w/a/./b").expect("inside"), "/w/a/b");
    assert!(at("../etc/passwd").is_err());
    assert!(at("/wide").is_err());
    let again = at("a/b").expect("inside");
    assert_eq!(at(&again).expect("inside"), again);
}

fn workspace() -> Workspace {
    Workspace::new(AbsPath::new("/w").expect("absolute"))
}

#[test]
fn resolves_a_relative_path_under_the_root() {
    let workspace = workspace();
    let resolved =
        workspace.resolve("src/lib.rs", Canonical::NotFound, None).expect("resolves");
    assert!(resolved.is_contained_in(workspace.root()));
}

#[test]
fn rejects_traversal_out_of_the_root() {
    let error = workspace()
        .resolve("../../etc/passwd", Canonical::NotFound, None)
        .expect_err("rejected");
    assert!(matches!(error, WorkspaceError::Escapes { .. }), "{error:?}");
}

#[test]
fn rejects_an_absolute_path_outside_the_root() {
    let error = workspace()
        .resolve("/etc/hosts", Canonical::Real("/etc/hosts".to_string()), None)
        .expect_err("rejected");
    assert!(matches!(error, WorkspaceError::Escapes { .. }), "{error:?}");
    assert_eq!(error.message(), "/etc/hosts is outside the workspace root /w");
}

#[test]
fn rejects_a_symlink_pointing_out_of_the_root() {
    let workspace = workspace();
    assert_eq!(workspace.joined("escape/hosts"), "/w/escape/hosts");
    let error = workspace
        .resolve("escape/hosts", Canonical::Real("/etc/hosts".to_string()), None)
        .expect_err("rejected");
    assert!(matches!(error, WorkspaceError::Escapes { .. }), "{error:?}");
}

#[test]
fn a_root_that_is_a_link_is_held_against_where_it_leads() {
    let resolved = workspace()
        .resolve(
            "a",
            Canonical::Real("/private/w/a".to_string()),
            Some("/private/w".to_string()),
        )
        .expect("inside");
    assert_eq!(resolved.as_str(), "/private/w/a");
}

#[test]
fn a_path_that_cannot_be_looked_at_is_an_error_of_its_own() {
    let error = workspace()
        .resolve("a", Canonical::Failed("permission denied".to_string()), None)
        .expect_err("failed");
    assert_eq!(error.message(), "/w/a: permission denied");
    let error = workspace()
        .resolve("a", Canonical::Real("odd".to_string()), None)
        .expect_err("failed");
    assert!(matches!(error, WorkspaceError::Path(PathError::NotAbsolute(_))), "{error:?}");
}

#[test]
fn a_path_is_shown_below_the_root() {
    let inside = AbsPath::new("/w/a/b").expect("absolute");
    assert_eq!(workspace().relativize(&inside).expect("inside").as_str(), "a/b");
    let outside = AbsPath::new("/v").expect("absolute");
    assert!(workspace().relativize(&outside).is_err());
    assert_eq!(normalize_lexically("/a/../../b/."), "/b");
}

#[test]
fn a_slow_command_times_out_rather_than_failing() {
    let ran = |run: Run| {
        command_outcome("sh", run, "out".to_string(), "err".to_string(), 150)
    };
    let error = ran(Run::TimedOut).expect_err("times out");
    assert!(matches!(error, WorkspaceError::Timeout { millis: 150 }), "{error:?}");
    assert_eq!(error.message(), "command timed out after 150ms");
    let outcome = ran(Run::Exited(Some(3))).expect("runs");
    assert_eq!(outcome.exit_code, Some(3));
    assert!(!outcome.succeeded());
    assert_eq!(outcome.stdout, "out");
    assert!(ran(Run::Exited(Some(0))).expect("runs").succeeded());
    assert!(!ran(Run::Exited(None)).expect("runs").succeeded());
    let error = ran(Run::Failed("not found".to_string())).expect_err("fails");
    assert_eq!(error.message(), "sh: not found");
}

#[test]
fn the_status_is_capped_and_the_rest_counted() {
    let lines: String = (0..50).map(|n| format!("?? file{n}\n")).collect();
    let status = vcs_status(Some(b"main\n".to_vec()), Some(lines.into_bytes())).expect("a repository");
    assert_eq!(status.branch.as_deref(), Some("main"));
    assert_eq!(status.changes.len(), 40);
    assert_eq!(status.changes[39], "?? file39");
    assert_eq!(status.truncated, 10);
    let clean = vcs_status(Some(Vec::new()), Some(Vec::new())).expect("a repository");
    assert_eq!(clean.branch, None);
    assert!(clean.changes.is_empty());
    let unborn = vcs_status(None, Some(b"?? a\xff\n".to_vec())).expect("a repository");
    assert_eq!(unborn.branch, None);
    assert_eq!(unborn.changes, vec!["?? a\u{fffd}".to_string()]);
    assert!(vcs_status(None, None).is_none());
}

#[test]
fn a_path_that_climbs_out_is_not_contained() {
    let root = AbsPath::new(ROOT).expect("absolute");
    let outside = AbsPath::new("/tmp/keke/../etc").expect("absolute");
    assert!(!outside.is_contained_in(&root));
    assert!(matches!(outside.strip_root(&root), Err(PathError::NotContained { .. })));
    let workspace = Workspace::new(root.clone());
    assert!(matches!(
        workspace.relativize(&outside),
        Err(WorkspaceError::Path(PathError::NotContained { .. }))
    ));

    let other = AbsPath::new("/tmp/x/../keke/a").expect("absolute");
    assert!(!other.is_contained_in(&root), "it does not begin with the root");
    assert!(matches!(other.strip_root(&root), Err(PathError::NotContained { .. })));
    let inside = AbsPath::new("/tmp/keke/a/../b").expect("absolute");
    assert!(inside.is_contained_in(&root));
    assert_eq!(inside.strip_root(&root).expect("inside").as_str(), "a/../b");
    let plain = AbsPath::new("/tmp/keke/c//d").expect("absolute");
    assert_eq!(plain.strip_root(&root).expect("inside").as_str(), "c//d");
}

#[test]
fn a_new_file_can_be_made_however_the_root_is_spelled() {
    for root in ["/../w", "/x/../w", "/w/."] {
        let workspace = Workspace::new(AbsPath::new(root).expect("absolute"));
        for actual in [None, Some("/private/w".to_string())] {
            let made = workspace.resolve("a/../new.txt", Canonical::NotFound, actual).expect(root);
            assert_eq!(made.as_str(), "/w/new.txt");
        }
        let error = workspace.resolve("../new.txt", Canonical::NotFound, None).expect_err(root);
        assert!(matches!(error, WorkspaceError::Escapes { .. }), "{error:?}");
    }
}

#[test]
fn a_new_file_can_be_made_under_a_root_that_is_a_link() {
    let real = || Some("/private/w".to_string());
    let made = workspace().resolve("new.txt", Canonical::NotFound, real()).expect("inside");
    assert_eq!(made.as_str(), "/w/new.txt");
    let made = workspace()
        .resolve("/private/w/new.txt", Canonical::NotFound, real())
        .expect("inside");
    assert_eq!(made.as_str(), "/private/w/new.txt");
    let error = workspace()
        .resolve("../new.txt", Canonical::NotFound, real())
        .expect_err("outside");
    assert!(matches!(error, WorkspaceError::Escapes { .. }), "{error:?}");
    let error = workspace()
        .resolve("a", Canonical::Real("/w/a".to_string()), real())
        .expect_err("what exists is where it really is");
    assert!(matches!(error, WorkspaceError::Escapes { .. }), "{error:?}");
}

#[test]
fn status_lines_keep_their_columns() {
    let status = vcs_status(
        Some(b"main\n".to_vec()),
        Some(b" M a.rs\n M b.rs\n".to_vec()),
    )
    .expect("a repository");
    assert_eq!(status.branch.as_deref(), Some("main"));
    assert_eq!(status.changes, vec![" M a.rs", " M b.rs"]);
    assert_eq!(status.truncated, 0);
}

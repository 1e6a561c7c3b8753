//! The `bash` tool: one shell command in the workspace root.

use vstd::prelude::*;
use crate::protocol::{block_views, one_text, BlockView, ContentBlock};
use crate::support;
use crate::support::{byte_size, capped, MAX_OUTPUT_BYTES};
use crate::text;
use crate::text::{lossy, signed_decimal_of};
use crate::tool::{ToolCapabilities, ToolDescription, ToolError, ToolErrorView, ToolId, ToolKind};

verus! {

/// Used when the model names no budget.
pub const DEFAULT_TIMEOUT_MS: u64 = 120_000;

/// The ceiling the model cannot raise past. Advertised as this tool's budget, which is what
/// the engine enforces, so the two numbers are the same number rather than two that can
/// drift.
pub const MAX_TIMEOUT_MS: u64 = 600_000;

/// What the tool is called with.
#[derive(Debug, PartialEq, Eq)]
pub struct BashArgs {
    /// Shell command line, run from the workspace root.
    pub command: String,
    /// Wall-clock budget in milliseconds. Defaults to two minutes, capped at ten.
    pub timeout_ms: Option<u64>,
}

/// What the tool answers with.
#[derive(Debug, PartialEq, Eq)]
pub struct BashOutput {
    pub exit_code: i32,
    /// Standard output and then standard error, already capped.
    pub output: String,
    pub truncated: bool,
}

/// What the model sees of a finished command.
pub open spec fn bash_report(exit_code: i32, output: Seq<char>) -> Seq<char> {
    let shown = if output.len() == 0 {
        "(no output)"@
    } else {
        output
    };
    if exit_code != 0 {
        shown + "\n[exit "@ + signed_decimal_of(exit_code as int) + "]"@
    } else {
        shown
    }
}

impl BashOutput {
    /// What the model sees of the outcome.
    pub fn render(&self) -> (r: Vec<ContentBlock>)
        ensures
            block_views(r@) == seq![
                BlockView::Text { text: bash_report(self.exit_code, self.output@) },
            ],
    {
        let mut shown = if self.output.as_str().unicode_len() == 0 {
            text::copy("(no output)")
        } else {
            self.output.clone()
        };
        if self.exit_code != 0 {
            shown.append("\n[exit ");
            let code = text::signed_decimal(self.exit_code);
            shown.append(code.as_str());
            shown.append("]");
        }
        one_text(shown.as_str())
    }
}

/// Both outputs of a command as one text, each on lines of its own.
pub open spec fn combined(stdout: Seq<char>, stderr: Seq<char>) -> Seq<char> {
    if stderr.len() == 0 {
        stdout
    } else if stdout.len() > 0 && stdout.last() != '\n' {
        stdout.push('\n') + stderr
    } else {
        stdout + stderr
    }
}

/// The wall-clock budget of a call: what the model asked for, and never more than the engine
/// enforces.
pub open spec fn budget_of(asked: Option<u64>, enforced: Option<u64>) -> u64 {
    let wanted = match asked {
        Some(millis) => millis,
        None => DEFAULT_TIMEOUT_MS,
    };
    let ceiling = match enforced {
        Some(millis) => millis,
        None => MAX_TIMEOUT_MS,
    };
    if wanted < ceiling {
        wanted
    } else {
        ceiling
    }
}

/// Runs a shell command in the workspace root.
pub struct Bash;

impl Bash {
    pub fn id(&self) -> (r: ToolId)
        ensures
            r@ == "bash"@,
    {
        ToolId::new("bash")
    }

    pub fn description(&self) -> (r: ToolDescription)
        ensures
            r.text@
                == "Run a shell command from the workspace root. Returns stdout and stderr combined, plus the exit code when it is non-zero. Long output is truncated, so pipe through `head` when you expect a lot."@,
    {
        ToolDescription::new(
            "Run a shell command from the workspace root. Returns stdout and stderr combined, plus the exit code when it is non-zero. Long output is truncated, so pipe through `head` when you expect a lot.",
        )
    }

    /// A shell command can touch anything the other calls in the step are touching, so it
    /// never runs beside a sibling.
    pub fn capabilities(&self) -> (r: ToolCapabilities)
        ensures
            r == (ToolCapabilities {
                kind: ToolKind::Execute,
                concurrency_safe: false,
                timeout_millis: Some(MAX_TIMEOUT_MS),
            }),
    {
        ToolCapabilities {
            kind: ToolKind::Execute,
            concurrency_safe: false,
            timeout_millis: Some(MAX_TIMEOUT_MS),
        }
    }

    /// The wall-clock budget of a call: what the model asked for, clamped to the budget the
    /// engine is enforcing rather than to a local copy of it.
    pub fn budget(args: &BashArgs, enforced: Option<u64>) -> (r: u64)
        ensures
            r == budget_of(args.timeout_ms, enforced),
    {
        let asked: u64 = match args.timeout_ms {
            Some(millis) => millis,
            None => DEFAULT_TIMEOUT_MS,
        };
        let ceiling: u64 = match enforced {
            Some(millis) => millis,
            None => MAX_TIMEOUT_MS,
        };
        if asked < ceiling {
            asked
        } else {
            ceiling
        }
    }

    /// Whether a command that is still running after `elapsed` milliseconds is given up on:
    /// an aborted turn ends it first, then an exhausted budget.
    pub fn poll(cancelled: bool, elapsed: u64, budget: u64) -> (r: Option<ToolError>)
        ensures
            match r {
                Some(error) => if cancelled {
                    error@ == ToolErrorView::Cancelled
                } else {
                    elapsed >= budget && error@ == (ToolErrorView::Timeout { millis: budget })
                },
                None => !cancelled && elapsed < budget,
            },
    {
        if cancelled {
            return Some(ToolError::Cancelled);
        }
        if elapsed >= budget {
            return Some(ToolError::Timeout { millis: budget });
        }
        None
    }

    /// The failure of a command that could not be started.
    pub fn spawn_failed(program: &str, error: &str) -> (r: ToolError)
        ensures
            r@ == (ToolErrorView::Execution {
                code: "spawn_failed"@,
                message: program@ + ": "@ + error@,
            }),
    {
        ToolError::custom("spawn_failed", text::concat3(program, ": ", error))
    }

    /// The failure of a command that could not be waited for.
    pub fn wait_failed(error: &str) -> (r: ToolError)
        ensures
            r@ == (ToolErrorView::Execution { code: "wait_failed"@, message: error@ }),
    {
        ToolError::custom("wait_failed", text::copy(error))
    }

    /// The outcome of a finished command. One that a signal ended has no exit code of its
    /// own.
    pub fn finish(exit_code: Option<i32>, stdout: &Vec<u8>, stderr: &Vec<u8>) -> (r: BashOutput)
        ensures
            r.exit_code == (match exit_code {
                Some(code) => code,
                None => -1i32,
            }),
            r.output@ == capped(combined(lossy(stdout@), lossy(stderr@)), "output truncated"@),
            r.truncated == (byte_size(combined(lossy(stdout@), lossy(stderr@)))
                > MAX_OUTPUT_BYTES),
    {
        let mut all = text::from_utf8_lossy(stdout);
        let rest = text::from_utf8_lossy(stderr);
        if stderr.len() > 0 {
            let n: usize = all.as_str().unicode_len();
            if n > 0 && all.as_str().get_char(n - 1) != '\n' {
                all.push('\n');
            }
            all.append(rest.as_str());
        }
        let (output, truncated) = support::cap(all, "output truncated");
        BashOutput {
            exit_code: match exit_code {
                Some(code) => code,
                None => -1,
            },
            output,
            truncated,
        }
    }
}

/// The budget of a call never exceeds what the engine enforces, nor ten minutes where it
/// enforces nothing, nor what the model asked for.
pub proof fn budget_is_enforced(asked: Option<u64>, enforced: Option<u64>)
    ensures
        enforced matches Some(millis) ==> budget_of(asked, enforced) <= millis,
        enforced is None ==> budget_of(asked, enforced) <= MAX_TIMEOUT_MS,
        asked matches Some(millis) ==> budget_of(asked, enforced) <= millis,
{
}

/// All that a command printed is shown, what went to the standard error behind the rest, and on a
/// line of its own.
pub proof fn both_outputs_are_shown(stdout: Seq<char>, stderr: Seq<char>) -> (gap: Seq<char>)
    ensures
        combined(stdout, stderr) == stdout + gap + stderr,
        gap.len() <= 1,
        gap == seq!['\n'] <==> stdout.len() > 0 && stderr.len() > 0 && stdout.last() != '\n',
        gap.len() == 1 ==> gap == seq!['\n'],
{
    let gap = if stdout.len() > 0 && stderr.len() > 0 && stdout.last() != '\n' {
        seq!['\n']
    } else {
        Seq::empty()
    };
    assert(gap.len() == 0 ==> gap != seq!['\n']) by {
        assert(seq!['\n'].len() == 1);
    }
    assert(combined(stdout, stderr) =~= stdout + gap + stderr);
    gap
}

/// The report of a command starts with what it printed, and ends with its exit code just where
/// that is not zero.
pub proof fn a_failure_shows_its_code(exit_code: i32, output: Seq<char>)
    ensures
        output.len() > 0 ==> bash_report(exit_code, output).take(output.len() as int) == output,
        output.len() > 0 ==> (bash_report(exit_code, output) == output <==> exit_code == 0),
        bash_report(exit_code, output).len() > 0,
        exit_code != 0 ==> bash_report(exit_code, output) == bash_report(0, output) + "\n[exit "@
            + signed_decimal_of(exit_code as int) + "]"@,
{
    reveal_strlit("(no output)");
    reveal_strlit("\n[exit ");
    reveal_strlit("]");
    let report = bash_report(exit_code, output);
    assert(report.take(output.len() as int) =~= output || output.len() == 0);
    if output.len() > 0 && exit_code != 0 {
        assert(report.len() > output.len());
    }
    assert(exit_code != 0 ==> report =~= bash_report(0, output) + "\n[exit "@ + signed_decimal_of(
        exit_code as int,
    ) + "]"@);
}

/// A call gets just what it asks for as long as that is allowed, and two minutes where it asks for
/// nothing and that is allowed.
pub proof fn a_budget_is_what_was_asked_for(asked: Option<u64>, enforced: Option<u64>)
    ensures
        ({
            let ceiling: u64 = enforced.unwrap_or(600_000);
            let wanted: u64 = asked.unwrap_or(120_000);
            &&& wanted <= ceiling ==> budget_of(asked, enforced) == wanted
            &&& wanted > ceiling ==> budget_of(asked, enforced) == ceiling
        }),
{
}

} // verus!

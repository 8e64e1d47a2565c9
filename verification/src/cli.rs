//! Argument checks of the command-line runner, and the decisions of its
//! environment check.
use vstd::prelude::*;

use crate::concurrent::{ConcurrentRuntimeState, ShutdownDiagnostics};
use crate::error::ErrorCategory;
use crate::dotenv::{split_lines, text_lines};
use crate::providers::{blank, is_blank, trim_text, trimmed};
use crate::text::{decimal_digits, u64_decimal};

verus! {

/// The longest wait the runner accepts, one hour, in milliseconds.
pub const MAX_CLI_TIMEOUT_MS: u64 = 3600000;

/// Checks a wait given on the command line as `--name`, in milliseconds: it
/// must be between 1 and one hour. Returns the wait in milliseconds.
pub fn cli_timeout(name: &str, milliseconds: u64) -> (r: Result<u64, String>)
    ensures
        1 <= milliseconds <= MAX_CLI_TIMEOUT_MS ==> r == Ok::<u64, String>(milliseconds),
        !(1 <= milliseconds <= MAX_CLI_TIMEOUT_MS) ==> (r matches Err(m) && m@ == "--"@ + name@
            + " must be between 1 and 3600000 milliseconds"@),
{
    if milliseconds == 0 || milliseconds > MAX_CLI_TIMEOUT_MS {
        let mut message = "--".to_owned();
        message.append(name);
        message.append(" must be between 1 and 3600000 milliseconds");
        return Err(message);
    }
    Ok(milliseconds)
}

/// The first line among the first `n` that holds more than whitespace,
/// without its surrounding whitespace.
pub open spec fn first_filled(lines: Seq<Seq<char>>, n: int) -> Option<Seq<char>>
    decreases n,
{
    if n <= 0 {
        None
    } else {
        match first_filled(lines, n - 1) {
            Some(line) => Some(line),
            None => if !blank(lines[n - 1]) {
                Some(trimmed(lines[n - 1]))
            } else {
                None
            },
        }
    }
}

/// The lines a tool printed: those of its standard output, then those of
/// its standard error.
pub open spec fn printed_lines(stdout: Seq<char>, stderr: Seq<char>) -> Seq<Seq<char>> {
    text_lines(stdout) + text_lines(stderr)
}

proof fn lemma_first_filled_stable(lines: Seq<Seq<char>>, m: int, n: int)
    requires
        0 <= m <= n,
        first_filled(lines, m) is Some,
    ensures
        first_filled(lines, n) == first_filled(lines, m),
    decreases n - m,
{
    if m < n {
        lemma_first_filled_stable(lines, m, n - 1);
    }
}

/// The version a tool reports when asked for it: the first printed line
/// that holds more than whitespace, trimmed (see `printed_lines`).
pub fn reported_version(stdout: &str, stderr: &str) -> (r: Option<String>)
    ensures
        match first_filled(printed_lines(stdout@, stderr@), printed_lines(stdout@, stderr@).len() as int) {
            Some(v) => r matches Some(s) && s@ == v,
            None => r is None,
        },
{
    let mut lines = split_lines(stdout);
    let mut more = split_lines(stderr);
    lines.append(&mut more);
    let ghost all = printed_lines(stdout@, stderr@);
    assert(lines@.map_values(|s: String| s@) =~= all);
    let mut i: usize = 0;
    while i < lines.len()
        invariant
            all == printed_lines(stdout@, stderr@),
            lines@.map_values(|s: String| s@) == all,
            0 <= i <= lines@.len(),
            first_filled(all, i as int) is None,
        decreases lines@.len() - i,
    {
        let line = lines[i].as_str();
        assert(line@ == all[i as int]);
        if !is_blank(line) {
            proof {
                lemma_first_filled_stable(all, i + 1, all.len() as int);
            }
            return Some(trim_text(line));
        }
        i = i + 1;
    }
    None
}

/// Ends an environment check that found `warnings` warnings: in strict mode
/// any warning fails it.
pub fn doctor_outcome(strict: bool, warnings: u64) -> (r: Result<(), String>)
    ensures
        strict && warnings > 0 ==> (r matches Err(m) && m@ == "doctor found "@ + decimal_digits(warnings as nat)
            + " warning(s)"@),
        !(strict && warnings > 0) ==> r is Ok,
{
    if strict && warnings > 0 {
        let mut message = "doctor found ".to_owned();
        let count = u64_decimal(warnings);
        message.append(count.as_str());
        message.append(" warning(s)");
        Err(message)
    } else {
        Ok(())
    }
}

/// The debug name of a lifecycle state.
pub open spec fn state_debug(s: ConcurrentRuntimeState) -> Seq<char> {
    match s {
        ConcurrentRuntimeState::Starting => "Starting"@,
        ConcurrentRuntimeState::Running => "Running"@,
        ConcurrentRuntimeState::Stopping => "Stopping"@,
        ConcurrentRuntimeState::Finishing => "Finishing"@,
        ConcurrentRuntimeState::Aborting => "Aborting"@,
        ConcurrentRuntimeState::Finished => "Finished"@,
        ConcurrentRuntimeState::Aborted => "Aborted"@,
    }
}

fn state_debug_name(s: ConcurrentRuntimeState) -> (r: &'static str)
    ensures
        r@ == state_debug(s),
{
    match s {
        ConcurrentRuntimeState::Starting => "Starting",
        ConcurrentRuntimeState::Running => "Running",
        ConcurrentRuntimeState::Stopping => "Stopping",
        ConcurrentRuntimeState::Finishing => "Finishing",
        ConcurrentRuntimeState::Aborting => "Aborting",
        ConcurrentRuntimeState::Finished => "Finished",
        ConcurrentRuntimeState::Aborted => "Aborted",
    }
}

/// Texts joined by commas.
pub open spec fn comma_joined(items: Seq<Seq<char>>) -> Seq<char>
    decreases items.len(),
{
    if items.len() == 0 {
        Seq::empty()
    } else if items.len() == 1 {
        items[0]
    } else {
        comma_joined(items.drop_last()) + ","@ + items.last()
    }
}

fn comma_join(items: &[String]) -> (r: String)
    ensures
        r@ == comma_joined(items@.map_values(|s: String| s@)),
{
    let ghost all = items@.map_values(|s: String| s@);
    let mut text = String::new();
    let mut i: usize = 0;
    while i < items.len()
        invariant
            all == items@.map_values(|s: String| s@),
            0 <= i <= items@.len(),
            text@ == comma_joined(all.subrange(0, i as int)),
        decreases items@.len() - i,
    {
        if i > 0 {
            text.append(",");
        }
        text.append(items[i].as_str());
        proof {
            assert(all.subrange(0, i + 1).drop_last() =~= all.subrange(0, i as int));
        }
        i = i + 1;
    }
    proof {
        assert(all.subrange(0, items@.len() as int) =~= all);
    }
    text
}

/// How the cleanup after a timed-out run went: `remaining` are the nodes
/// still active when the cleanup wait also timed out.
pub open spec fn cleanup_text(remaining: Option<Seq<Seq<char>>>) -> Seq<char> {
    match remaining {
        Some(nodes) => "cleanup timed out with active nodes ["@ + comma_joined(nodes) + "]"@,
        None => "cleanup completed"@,
    }
}

/// The error of a run that did not finish within `timeout_ms`:
/// `diagnostics` describe the run when the wait gave up, and `remaining` the
/// run when the wait for its cleanup gave up too, if it did.
pub fn timeout_report(
    graph_id: &str,
    timeout_ms: u64,
    diagnostics: &ShutdownDiagnostics,
    remaining: Option<&ShutdownDiagnostics>,
) -> (r: String)
    ensures
        r@ == "graph `"@ + graph_id@ + "` timed out after "@ + decimal_digits(timeout_ms as nat) + " ms in state "@
            + state_debug(diagnostics.spec_state()) + " with active nodes ["@ + comma_joined(
            diagnostics.spec_active_nodes(),
        ) + "]; "@ + cleanup_text(
            match remaining {
                Some(d) => Some(d.spec_active_nodes()),
                None => None,
            },
        ),
{
    let mut text = "graph `".to_owned();
    text.append(graph_id);
    text.append("` timed out after ");
    let ms = u64_decimal(timeout_ms);
    text.append(ms.as_str());
    text.append(" ms in state ");
    text.append(state_debug_name(diagnostics.state()));
    text.append(" with active nodes [");
    let active = comma_join(diagnostics.active_nodes());
    text.append(active.as_str());
    text.append("]; ");
    match remaining {
        Some(d) => {
            text.append("cleanup timed out with active nodes [");
            let still = comma_join(d.active_nodes());
            text.append(still.as_str());
            text.append("]");
        },
        None => {
            text.append("cleanup completed");
        },
    }
    text
}

/// The debug name of an error category.
pub open spec fn category_debug(c: ErrorCategory) -> Seq<char> {
    match c {
        ErrorCategory::Configuration => "Configuration"@,
        ErrorCategory::Validation => "Validation"@,
        ErrorCategory::Lifecycle => "Lifecycle"@,
        ErrorCategory::Cancelled => "Cancelled"@,
        ErrorCategory::External => "External"@,
        ErrorCategory::Internal => "Internal"@,
    }
}

fn category_debug_name(c: ErrorCategory) -> (r: &'static str)
    ensures
        r@ == category_debug(c),
{
    match c {
        ErrorCategory::Configuration => "Configuration",
        ErrorCategory::Validation => "Validation",
        ErrorCategory::Lifecycle => "Lifecycle",
        ErrorCategory::Cancelled => "Cancelled",
        ErrorCategory::External => "External",
        ErrorCategory::Internal => "Internal",
    }
}

/// The error of a run that aborted: its root error's code, category and
/// message, the stage it aborted in (`stage` is that stage's debug name),
/// and the node that aborted it, or `<runtime>` when the runtime did.
pub fn abort_report(
    graph_id: &str,
    code: &str,
    category: ErrorCategory,
    stage: &str,
    node_id: Option<&str>,
    message: &str,
) -> (r: String)
    ensures
        r@ == "graph `"@ + graph_id@ + "` aborted: code="@ + code@ + " category="@ + category_debug(category)
            + " stage="@ + stage@ + " node="@ + (match node_id {
            Some(n) => n@,
            None => "<runtime>"@,
        }) + " message="@ + message@,
{
    let mut text = "graph `".to_owned();
    text.append(graph_id);
    text.append("` aborted: code=");
    text.append(code);
    text.append(" category=");
    text.append(category_debug_name(category));
    text.append(" stage=");
    text.append(stage);
    text.append(" node=");
    match node_id {
        Some(n) => text.append(n),
        None => text.append("<runtime>"),
    }
    text.append(" message=");
    text.append(message);
    text
}

} // verus!

//! Workflow drivers: the order in which a composite workflow's steps
//! run, when it aborts, and how the step results combine into one.
//!
//! Sequential workflows run their steps in order and stop at the first
//! failure; parallel workflows run every step and fail if any step
//! fails; graph-driven workflows fall back to sequential order. The
//! outside work of running one step is the caller's; the decisions and
//! the combination are decided here.

use vstd::prelude::*;

use crate::types::{ExecutionMetrics, TaskResult, WorkflowStrategy};

verus! {

/// What a workflow driver does next.
#[derive(Debug, PartialEq, Eq)]
pub enum WorkflowAction {
    /// Run the step with this index.
    Run(usize),
    /// A step failed: stop and report failure.
    Abort,
    /// Every step finished: combine the results.
    Done,
}

/// Decides the next step after `done` of `total` steps finished,
/// `any_failed` saying whether any of them failed. A failure aborts
/// the workflow; otherwise the steps run in order until all are done.
pub fn workflow_next(done: usize, total: usize, any_failed: bool) -> (r: WorkflowAction)
    ensures
        (r is Abort) <==> any_failed,
        (!any_failed && done < total) ==> r == WorkflowAction::Run(done),
        (!any_failed && done >= total) ==> r is Done,
{
    if any_failed {
        WorkflowAction::Abort
    } else if done < total {
        WorkflowAction::Run(done)
    } else {
        WorkflowAction::Done
    }
}

/// Each line followed by a newline, in order.
pub open spec fn spec_lines_terminated(xs: Seq<Seq<char>>) -> Seq<char>
    decreases xs.len(),
{
    if xs.len() == 0 {
        Seq::empty()
    } else {
        spec_lines_terminated(xs.drop_last()) + xs.last() + "\n"@
    }
}

/// The lines joined by single newlines, in order.
pub open spec fn spec_lines_joined(xs: Seq<Seq<char>>) -> Seq<char>
    decreases xs.len(),
{
    if xs.len() == 0 {
        Seq::empty()
    } else if xs.len() == 1 {
        xs.last()
    } else {
        spec_lines_joined(xs.drop_last()) + "\n"@ + xs.last()
    }
}

/// One decimal digit as text.
pub open spec fn spec_digit(d: nat) -> Seq<char> {
    if d == 0 {
        "0"@
    } else if d == 1 {
        "1"@
    } else if d == 2 {
        "2"@
    } else if d == 3 {
        "3"@
    } else if d == 4 {
        "4"@
    } else if d == 5 {
        "5"@
    } else if d == 6 {
        "6"@
    } else if d == 7 {
        "7"@
    } else if d == 8 {
        "8"@
    } else {
        "9"@
    }
}

/// The decimal digits of a number, most significant first.
pub open spec fn spec_decimal(n: nat) -> Seq<char>
    decreases n,
{
    if n < 10 {
        spec_digit(n)
    } else {
        spec_decimal(n / 10) + spec_digit(n % 10)
    }
}

/// Appends the decimal digits of `n`.
pub fn append_decimal(out: &mut String, n: u64)
    ensures
        final(out)@ == old(out)@ + spec_decimal(n as nat),
    decreases n,
{
    if n >= 10 {
        append_decimal(out, n / 10);
    }
    let d = n % 10;
    if d == 0 {
        out.append("0");
    } else if d == 1 {
        out.append("1");
    } else if d == 2 {
        out.append("2");
    } else if d == 3 {
        out.append("3");
    } else if d == 4 {
        out.append("4");
    } else if d == 5 {
        out.append("5");
    } else if d == 6 {
        out.append("6");
    } else if d == 7 {
        out.append("7");
    } else if d == 8 {
        out.append("8");
    } else {
        out.append("9");
    }
    proof {
        if n < 10 {
            assert(final(out)@ =~= old(out)@ + spec_decimal(n as nat));
        } else {
            assert(final(out)@ =~= old(out)@ + spec_decimal(n as nat));
        }
    }
}

/// The JSON summary a finished workflow reports.
pub open spec fn spec_workflow_summary(kind: Seq<char>, n: nat) -> Seq<char> {
    "{\"workflow_type\":\""@ + kind + "\",\"task_count\":"@ + spec_decimal(n)
        + ",\"results\":"@ + spec_decimal(n) + "}"@
}

/// Builds the JSON summary of a finished workflow of `n` steps.
fn build_summary(kind: &str, n: u64) -> (r: String)
    ensures
        r@ == spec_workflow_summary(kind@, n as nat),
{
    let mut out = String::new();
    out.append("{\"workflow_type\":\"");
    out.append(kind);
    out.append("\",\"task_count\":");
    append_decimal(&mut out, n);
    out.append(",\"results\":");
    append_decimal(&mut out, n);
    out.append("}");
    proof {
        assert(out@ =~= spec_workflow_summary(kind@, n as nat));
    }
    out
}

/// The stdout views of a result list.
pub open spec fn spec_stdouts(rs: Seq<TaskResult>) -> Seq<Seq<char>> {
    rs.map_values(|t: TaskResult| t.stdout@)
}

/// The stderr views of a result list.
pub open spec fn spec_stderrs(rs: Seq<TaskResult>) -> Seq<Seq<char>> {
    rs.map_values(|t: TaskResult| t.stderr@)
}

/// Combines the results of a workflow whose every step succeeded: the
/// outputs concatenated in step order — each followed by a newline for
/// sequential and graph-driven workflows, joined by newlines for
/// parallel ones — a zero exit code, and the JSON summary.
pub fn combine_workflow_results(strategy: &WorkflowStrategy, results: &Vec<TaskResult>) -> (r:
    TaskResult)
    requires
        results@.len() <= u64::MAX,
    ensures
        r.exit_code == 0,
        r.stdout@ == (if strategy is Parallel {
            spec_lines_joined(spec_stdouts(results@))
        } else {
            spec_lines_terminated(spec_stdouts(results@))
        }),
        r.stderr@ == (if strategy is Parallel {
            spec_lines_joined(spec_stderrs(results@))
        } else {
            spec_lines_terminated(spec_stderrs(results@))
        }),
        r.output_data matches Some(s) && s@ == spec_workflow_summary(
            if strategy is Parallel {
                "parallel"@
            } else {
                "sequential"@
            },
            results@.len(),
        ),
{
    let parallel = match strategy {
        WorkflowStrategy::Parallel => true,
        _ => false,
    };
    let mut total_stdout = String::new();
    let mut total_stderr = String::new();
    let mut i: usize = 0;
    while i < results.len()
        invariant
            i <= results@.len(),
            !parallel ==> total_stdout@ == spec_lines_terminated(
                spec_stdouts(results@.take(i as int)),
            ) && total_stderr@ == spec_lines_terminated(spec_stderrs(results@.take(i as int))),
            parallel ==> total_stdout@ == spec_lines_joined(
                spec_stdouts(results@.take(i as int)),
            ) && total_stderr@ == spec_lines_joined(spec_stderrs(results@.take(i as int))),
        decreases results@.len() - i,
    {
        proof {
            assert(results@.take(i as int + 1).drop_last() =~= results@.take(i as int));
            assert(spec_stdouts(results@.take(i as int + 1)).drop_last() =~= spec_stdouts(
                results@.take(i as int),
            ));
            assert(spec_stderrs(results@.take(i as int + 1)).drop_last() =~= spec_stderrs(
                results@.take(i as int),
            ));
            assert(spec_stdouts(results@.take(i as int + 1)).last() == results@[i as int].stdout@);
            assert(spec_stderrs(results@.take(i as int + 1)).last() == results@[i as int].stderr@);
        }
        if parallel {
            if i > 0 {
                total_stdout.append("\n");
                total_stderr.append("\n");
            }
            total_stdout.append(results[i].stdout.as_str());
            total_stderr.append(results[i].stderr.as_str());
            proof {
                if i == 0 {
                    assert(total_stdout@ =~= spec_lines_joined(
                        spec_stdouts(results@.take(i as int + 1)),
                    ));
                    assert(total_stderr@ =~= spec_lines_joined(
                        spec_stderrs(results@.take(i as int + 1)),
                    ));
                }
            }
        } else {
            total_stdout.append(results[i].stdout.as_str());
            total_stdout.append("\n");
            total_stderr.append(results[i].stderr.as_str());
            total_stderr.append("\n");
        }
        i = i + 1;
    }
    proof {
        assert(results@.take(results@.len() as int) =~= results@);
    }
    let summary = if parallel {
        build_summary("parallel", results.len() as u64)
    } else {
        build_summary("sequential", results.len() as u64)
    };
    TaskResult {
        exit_code: 0,
        stdout: total_stdout,
        stderr: total_stderr,
        output_data: Some(summary),
        metrics: ExecutionMetrics {
            execution_time_ms: 0,
            cpu_permille: 0,
            memory_usage: 0,
            network_read: 0,
            network_write: 0,
            disk_read: 0,
            disk_write: 0,
        },
    }
}

} // verus!

//! Run logs: the status of runs and steps, the record of each step, and the text shown for a
//! finished run.
use vstd::prelude::*;
use crate::numbers::{decimal, decimal_exec};
use crate::text::{cat, string_of};
use crate::manifest::opt_view;

verus! {

/// The status of a run.
#[derive(Debug, Clone, Copy, PartialEq, Eq)]
pub enum RunStatus {
    Running,
    Success,
    Failed,
    Aborted,
}

/// The status of a step.
#[derive(Debug, Clone, Copy, PartialEq, Eq)]
pub enum StepStatus {
    Success,
    Failed,
    Skipped,
}

/// The name of a run status in logs and events.
pub open spec fn run_status_name(s: RunStatus) -> Seq<char> {
    match s {
        RunStatus::Running => "running"@,
        RunStatus::Success => "success"@,
        RunStatus::Failed => "failed"@,
        RunStatus::Aborted => "aborted"@,
    }
}

/// The name of a run status in logs and events.
pub fn run_status_text(s: RunStatus) -> (r: String)
    ensures
        r@ == run_status_name(s),
{
    match s {
        RunStatus::Running => "running".to_owned(),
        RunStatus::Success => "success".to_owned(),
        RunStatus::Failed => "failed".to_owned(),
        RunStatus::Aborted => "aborted".to_owned(),
    }
}

/// The record of one step of a run. `index` counts from 1.
#[derive(Debug, Clone, PartialEq, Eq)]
pub struct StepRecord {
    pub index: usize,
    pub name: Option<String>,
    pub step_type: String,
    pub status: StepStatus,
    pub command: Option<String>,
    pub path: Option<String>,
    pub when: Option<String>,
    pub skip_reason: Option<String>,
    pub exit_code: Option<i32>,
    pub stdout_snippet: Option<String>,
    pub stderr_snippet: Option<String>,
    pub backup_path: Option<String>,
}

/// The position of the first record of the step numbered `index`.
pub open spec fn first_step_with(steps: Seq<StepRecord>, index: usize) -> Option<int>
    decreases steps.len(),
{
    if steps.len() == 0 {
        None
    } else {
        match first_step_with(steps.drop_last(), index) {
            Some(k) => Some(k),
            None => if steps.last().index == index {
                Some(steps.len() - 1)
            } else {
                None
            },
        }
    }
}

proof fn lemma_first_step_with(steps: Seq<StepRecord>, index: usize)
    ensures
        first_step_with(steps, index) matches Some(k) ==> 0 <= k < steps.len() && steps[k].index == index
            && forall|j: int| 0 <= j < k ==> #[trigger] steps[j].index != index,
        first_step_with(steps, index) is None ==> forall|j: int| 0 <= j < steps.len() ==> #[trigger] steps[j].index != index,
    decreases steps.len(),
{
    if steps.len() > 0 {
        lemma_first_step_with(steps.drop_last(), index);
        assert forall|j: int| 0 <= j < steps.len() - 1 implies steps.drop_last()[j] == #[trigger] steps[j] by {}
    }
}

/// The first record of the step numbered `index`, if any, is at the position
/// `first_step_with` gives.
pub proof fn lemma_first_step_bounds(steps: Seq<StepRecord>, index: usize)
    ensures
        first_step_with(steps, index) matches Some(k) ==> 0 <= k < steps.len() && steps[k].index == index,
{
    lemma_first_step_with(steps, index);
}

/// The position of the first record of the step numbered `index`.
pub fn find_step(steps: &[StepRecord], index: usize) -> (r: Option<usize>)
    ensures
        match first_step_with(steps@, index) {
            Some(k) => r == Some(k as usize),
            None => r is None,
        },
        r matches Some(k) ==> k < steps@.len() && steps@[k as int].index == index,
{
    let mut i: usize = 0;
    while i < steps.len()
        invariant
            0 <= i <= steps@.len(),
            forall|j: int| 0 <= j < i ==> #[trigger] steps@[j].index != index,
        decreases steps@.len() - i,
    {
        if steps[i].index == index {
            proof {
                lemma_first_step_with(steps@, index);
                lemma_first_step_with(steps@.take(i + 1), index);
                lemma_first_prefix(steps@, index, i + 1);
            }
            return Some(i);
        }
        i = i + 1;
    }
    proof {
        lemma_first_step_with(steps@, index);
    }
    None
}

proof fn lemma_first_prefix(steps: Seq<StepRecord>, index: usize, n: int)
    requires
        0 < n <= steps.len(),
        first_step_with(steps.take(n), index) is Some,
    ensures
        first_step_with(steps, index) == first_step_with(steps.take(n), index),
    decreases steps.len() - n,
{
    if n < steps.len() {
        assert(steps.take(n + 1).drop_last() =~= steps.take(n));
        assert(first_step_with(steps.take(n + 1), index) == first_step_with(steps.take(n), index));
        lemma_first_prefix(steps, index, n + 1);
    } else {
        assert(steps.take(n) =~= steps);
    }
}

/// The decimal text of a signed exit code.
pub open spec fn signed_decimal(c: int) -> Seq<char> {
    if c < 0 {
        seq!['-'] + decimal((-c) as nat)
    } else {
        decimal(c as nat)
    }
}

/// The decimal text of an exit code.
pub fn exit_code_text(code: i32) -> (r: String)
    ensures
        r@ == signed_decimal(code as int),
{
    if code < 0 {
        let n: i64 = -(code as i64);
        let mut v: Vec<char> = vec!['-'];
        crate::text::push_all(&mut v, &decimal_exec(n as u64));
        proof {
            assert(v@ =~= seq!['-'] + decimal((-code) as nat));
        }
        string_of(&v)
    } else {
        string_of(&decimal_exec(code as u64))
    }
}

/// The step name shown for a failure: its name or `<unnamed>`.
pub open spec fn shown_name(name: Option<Seq<char>>) -> Seq<char> {
    match name {
        Some(n) => n,
        None => "<unnamed>"@,
    }
}

/// The lines that describe the failed step of a run, when the run has one and its record is
/// there: its number out of the total, its name, and its exit code if it has one.
pub open spec fn failed_step_lines_spec(steps: Seq<StepRecord>, failed: Option<usize>, total: usize) -> Seq<Seq<char>> {
    match failed {
        None => Seq::empty(),
        Some(index) => match first_step_with(steps, index) {
            None => Seq::empty(),
            Some(k) => {
                let s = steps[k];
                let head = seq![
                    "Failed step: "@ + decimal(s.index as nat) + " / "@ + decimal(total as nat),
                    "Step name: "@ + shown_name(opt_view(s.name)),
                ];
                match s.exit_code {
                    Some(c) => head.push("Exit code: "@ + signed_decimal(c as int)),
                    None => head,
                }
            },
        },
    }
}

fn num(n: usize) -> (r: String)
    ensures
        r@ == decimal(n as nat),
{
    string_of(&decimal_exec(n as u64))
}

/// The lines that describe the failed step of a run.
pub fn failed_step_lines(steps: &[StepRecord], failed_step_index: Option<usize>, total_steps: usize) -> (r: Vec<String>)
    ensures
        r@.map_values(|s: String| s@) == failed_step_lines_spec(steps@, failed_step_index, total_steps),
{
    let mut out: Vec<String> = Vec::new();
    match failed_step_index {
        None => {},
        Some(index) => match find_step(steps, index) {
            None => {},
            Some(k) => {
                let s = &steps[k];
                let a = cat("Failed step: ", num(s.index).as_str());
                let b = cat(a.as_str(), " / ");
                out.push(cat(b.as_str(), num(total_steps).as_str()));
                let name = match &s.name {
                    Some(n) => n.as_str().to_owned(),
                    None => "<unnamed>".to_owned(),
                };
                proof {
                    assert(name@ == shown_name(opt_view(steps@[k as int].name)));
                }
                out.push(cat("Step name: ", name.as_str()));
                let ghost head = out@.map_values(|s: String| s@);
                proof {
                    assert(head =~= seq![
                        "Failed step: "@ + decimal(s.index as nat) + " / "@ + decimal(total_steps as nat),
                        "Step name: "@ + shown_name(opt_view(s.name)),
                    ]);
                }
                match s.exit_code {
                    Some(c) => {
                        out.push(cat("Exit code: ", exit_code_text(c).as_str()));
                        proof {
                            assert(out@.map_values(|s: String| s@) =~= head.push("Exit code: "@ + signed_decimal(c as int)));
                        }
                    },
                    None => {},
                }
                proof {
                    lemma_first_step_with(steps@, index);
                    assert(first_step_with(steps@, index) == Some(k as int));
                    assert(out@.map_values(|s: String| s@) =~= failed_step_lines_spec(steps@, failed_step_index, total_steps));
                }
            },
        },
    }
    proof {
        match failed_step_index {
            None => {
                assert(out@.map_values(|s: String| s@) =~= Seq::<Seq<char>>::empty());
            },
            Some(index) => {
                match first_step_with(steps@, index) {
                    None => {
                        assert(out@.map_values(|s: String| s@) =~= Seq::<Seq<char>>::empty());
                    },
                    Some(k) => {
                        assert(out@.map_values(|s: String| s@) =~= failed_step_lines_spec(steps@, failed_step_index, total_steps));
                    },
                }
            },
        }
    }
    out
}

/// Following a run's events stops once the run has finished and every event has been shown:
/// the run log says the run is no longer running, and the events file is missing or was read
/// to its end.
pub fn follow_should_stop(status: Option<RunStatus>, events_exist: bool, offset: u64, events_len: u64) -> (r: bool)
    ensures
        r == (status is Some && status != Some(RunStatus::Running) && (!events_exist || offset >= events_len)),
{
    match status {
        None => false,
        Some(RunStatus::Running) => false,
        Some(_) => !events_exist || offset >= events_len,
    }
}

/// How a run status prints in a summary.
pub open spec fn status_word(s: RunStatus) -> Seq<char> {
    match s {
        RunStatus::Running => "Running"@,
        RunStatus::Success => "Success"@,
        RunStatus::Failed => "Failed"@,
        RunStatus::Aborted => "Aborted"@,
    }
}

fn status_word_exec(s: RunStatus) -> (r: String)
    ensures
        r@ == status_word(s),
{
    match s {
        RunStatus::Running => "Running".to_owned(),
        RunStatus::Success => "Success".to_owned(),
        RunStatus::Failed => "Failed".to_owned(),
        RunStatus::Aborted => "Aborted".to_owned(),
    }
}

/// The summary of a run that `tali logs` prints: its ID, manifest, status and times (as
/// given), its failed step, where its logs are, and its live events log when it has one.
pub open spec fn summary_lines_spec(
    run_id: Seq<char>,
    manifest_name: Seq<char>,
    status: RunStatus,
    started: Seq<char>,
    ended: Option<Seq<char>>,
    steps: Seq<StepRecord>,
    failed: Option<usize>,
    total: usize,
    run_dir: Seq<char>,
    events_log: Seq<char>,
) -> Seq<Seq<char>> {
    seq!["Run: "@ + run_id, "Manifest: "@ + manifest_name, "Status: "@ + status_word(status), "Started: "@ + started]
        + (match ended {
        Some(e) => seq!["Ended: "@ + e],
        None => Seq::empty(),
    }) + failed_step_lines_spec(steps, failed, total) + seq!["Full log path:"@, run_dir] + (if events_log.len() > 0 {
        seq!["Live events log:"@, events_log]
    } else {
        Seq::empty()
    })
}

/// The summary of a run that `tali logs` prints.
pub fn summary_lines(
    run_id: &str,
    manifest_name: &str,
    status: RunStatus,
    started: &str,
    ended: Option<&str>,
    steps: &[StepRecord],
    failed_step_index: Option<usize>,
    total_steps: usize,
    run_dir: &str,
    events_log: &str,
) -> (r: Vec<String>)
    ensures
        r@.map_values(|s: String| s@) == summary_lines_spec(
            run_id@,
            manifest_name@,
            status,
            started@,
            crate::manifest::opt_str_view(ended),
            steps@,
            failed_step_index,
            total_steps,
            run_dir@,
            events_log@,
        ),
{
    let mut out: Vec<String> = Vec::new();
    out.push(cat("Run: ", run_id));
    out.push(cat("Manifest: ", manifest_name));
    out.push(cat("Status: ", status_word_exec(status).as_str()));
    out.push(cat("Started: ", started));
    let ghost a = out@.map_values(|s: String| s@);
    match ended {
        Some(e) => {
            out.push(cat("Ended: ", e));
        },
        None => {},
    }
    let ghost b = out@.map_values(|s: String| s@);
    let failed = failed_step_lines(steps, failed_step_index, total_steps);
    let ghost fl = failed@.map_values(|s: String| s@);
    let mut i: usize = 0;
    while i < failed.len()
        invariant
            0 <= i <= failed@.len(),
            fl == failed@.map_values(|s: String| s@),
            out@.map_values(|s: String| s@) == b + fl.take(i as int),
        decreases failed@.len() - i,
    {
        let ghost before = out@.map_values(|s: String| s@);
        out.push(failed[i].as_str().to_owned());
        proof {
            assert(out@.map_values(|s: String| s@) =~= before.push(fl[i as int]));
            assert(fl.take(i + 1) =~= fl.take(i as int).push(fl[i as int]));
        }
        i = i + 1;
    }
    let ghost c = out@.map_values(|s: String| s@);
    out.push("Full log path:".to_owned());
    out.push(run_dir.to_owned());
    let ghost d = out@.map_values(|s: String| s@);
    if !events_log.is_empty() {
        out.push("Live events log:".to_owned());
        out.push(events_log.to_owned());
    }
    proof {
        assert(fl.take(failed@.len() as int) =~= fl);
        assert(a =~= seq!["Run: "@ + run_id@, "Manifest: "@ + manifest_name@, "Status: "@ + status_word(status), "Started: "@ + started@]);
        assert(b =~= a + (match crate::manifest::opt_str_view(ended) {
            Some(e) => seq!["Ended: "@ + e],
            None => Seq::<Seq<char>>::empty(),
        }));
        assert(d =~= c + seq!["Full log path:"@, run_dir@]);
        assert(out@.map_values(|s: String| s@) =~= d + (if events_log@.len() > 0 {
            seq!["Live events log:"@, events_log@]
        } else {
            Seq::<Seq<char>>::empty()
        }));
    }
    out
}

} // verus!

//! Running a manifest: the plan shown first, the progress of a run from step to step, the
//! record of each step, and what the logs show of it.
use vstd::prelude::*;
use crate::interpolate::{
    interpolate, interpolation, mask_secrets, masked, pairs_view, strings_view, SpecInterpolateError,
};
use crate::logs::{RunStatus, StepRecord, StepStatus};
use crate::manifest::{
    command_spec, opt_str_view, opt_view, plan_line_spec, step_kind, step_when, step_name,
    steps_view, written_path_spec, InputSpec, Manifest, SpecInput, SpecStep, Step, inputs_view,
};
use crate::numbers::{decimal, decimal_exec};
use crate::text::{cat, chars_of, string_of};
use rand::Rng;

verus! {

/// How a run was asked for.
#[derive(Debug, Clone, PartialEq, Eq)]
pub struct RunnerOptions {
    pub yes: bool,
    pub dry_run: bool,
    /// Values given on the command line, as pairs of input name and value.
    pub provided_inputs: Vec<(String, String)>,
}

/// How a run ended.
#[derive(Debug, Clone, PartialEq, Eq)]
pub struct RunResult {
    pub run_id: Option<String>,
    pub status: RunStatus,
    pub run_dir: Option<String>,
}

/// The result of a run that did not start: a dry run, or a plan the user declined.
pub fn not_started() -> (r: RunResult)
    ensures
        r.run_id is None,
        r.status == RunStatus::Aborted,
        r.run_dir is None,
{
    RunResult { run_id: None, status: RunStatus::Aborted, run_dir: None }
}

/// The progress of a run through the steps of its manifest.
pub struct RunProgress {
    total: usize,
    status: RunStatus,
    failed_step_index: Option<usize>,
    steps: Vec<StepRecord>,
}

impl RunProgress {
    pub closed spec fn step_total(&self) -> nat {
        self.total as nat
    }

    pub closed spec fn run_status(&self) -> RunStatus {
        self.status
    }

    pub closed spec fn failed_index(&self) -> Option<usize> {
        self.failed_step_index
    }

    pub closed spec fn records(&self) -> Seq<StepRecord> {
        self.steps@
    }

    /// Steps are recorded in order, one record each, from the first; a run stops at its first
    /// failed step, which it names; it succeeds only when every step ran or was skipped.
    pub open spec fn wf(&self) -> bool {
        let rs = self.records();
        &&& rs.len() <= self.step_total()
        &&& forall|j: int| 0 <= j < rs.len() ==> (#[trigger] rs[j]).index == j + 1
        &&& forall|j: int| 0 <= j < rs.len() - 1 ==> (#[trigger] rs[j]).status != StepStatus::Failed
        &&& self.run_status() != RunStatus::Aborted
        &&& (self.run_status() == RunStatus::Failed <==> (rs.len() > 0 && rs.last().status == StepStatus::Failed))
        &&& (self.run_status() == RunStatus::Failed ==> self.failed_index() == Some(rs.len() as usize))
        &&& (self.run_status() != RunStatus::Failed ==> self.failed_index() is None)
        &&& (self.run_status() == RunStatus::Success ==> rs.len() == self.step_total())
    }

    /// A run of `total` steps that has just started.
    pub fn new(total: usize) -> (r: RunProgress)
        ensures
            r.wf(),
            r.step_total() == total,
            r.run_status() == RunStatus::Running,
            r.records() == Seq::<StepRecord>::empty(),
    {
        RunProgress { total, status: RunStatus::Running, failed_step_index: None, steps: Vec::new() }
    }

    /// The number of the next step to run, while the run goes on.
    pub fn next_step(&self) -> (r: Option<usize>)
        requires
            self.wf(),
        ensures
            r == (if self.run_status() == RunStatus::Running && self.records().len() < self.step_total() {
                Some((self.records().len() + 1) as usize)
            } else {
                None
            }),
    {
        match self.status {
            RunStatus::Running => {
                if self.steps.len() < self.total {
                    Some(self.steps.len() + 1)
                } else {
                    None
                }
            },
            _ => None,
        }
    }

    /// Records the outcome of the next step; a failed step fails the run there.
    pub fn record(&mut self, step: StepRecord)
        requires
            old(self).wf(),
            old(self).run_status() == RunStatus::Running,
            old(self).records().len() < old(self).step_total(),
            step.index == old(self).records().len() + 1,
        ensures
            final(self).wf(),
            final(self).step_total() == old(self).step_total(),
            final(self).records() == old(self).records().push(step),
            final(self).run_status() == (if step.status == StepStatus::Failed {
                RunStatus::Failed
            } else {
                RunStatus::Running
            }),
    {
        let failed = match step.status {
            StepStatus::Failed => true,
            _ => false,
        };
        let index = step.index;
        self.steps.push(step);
        if failed {
            self.status = RunStatus::Failed;
            self.failed_step_index = Some(index);
        }
    }

    /// Ends the run: a run still going after its last step succeeded.
    pub fn finish(&mut self)
        requires
            old(self).wf(),
            old(self).run_status() == RunStatus::Running ==> old(self).records().len() == old(self).step_total(),
        ensures
            final(self).wf(),
            final(self).step_total() == old(self).step_total(),
            final(self).records() == old(self).records(),
            final(self).failed_index() == old(self).failed_index(),
            final(self).run_status() == (if old(self).run_status() == RunStatus::Running {
                RunStatus::Success
            } else {
                old(self).run_status()
            }),
    {
        match self.status {
            RunStatus::Running => {
                self.status = RunStatus::Success;
            },
            _ => {},
        }
    }

    pub fn status(&self) -> (r: RunStatus)
        ensures
            r == self.run_status(),
    {
        self.status
    }

    pub fn failed_step_index(&self) -> (r: Option<usize>)
        ensures
            r == self.failed_index(),
    {
        self.failed_step_index
    }

    pub fn total_steps(&self) -> (r: usize)
        ensures
            r == self.step_total(),
    {
        self.total
    }

    pub fn steps(&self) -> (r: &Vec<StepRecord>)
        ensures
            r@ == self.records(),
    {
        &self.steps
    }
}

/// A finished run succeeded exactly when none of its steps failed, and a failed run names its
/// last recorded step, the one that failed.
pub proof fn lemma_run_status_reflects_steps(p: RunProgress)
    requires
        p.wf(),
        p.run_status() != RunStatus::Running,
    ensures
        p.run_status() == RunStatus::Success <==> forall|j: int|
            0 <= j < p.records().len() ==> (#[trigger] p.records()[j]).status != StepStatus::Failed,
        p.run_status() == RunStatus::Success ==> p.records().len() == p.step_total(),
        p.run_status() == RunStatus::Failed ==> p.failed_index() == Some(p.records().len() as usize)
            && p.records().last().status == StepStatus::Failed,
{
    let rs = p.records();
    if p.run_status() == RunStatus::Success {
        assert forall|j: int| 0 <= j < rs.len() implies (#[trigger] rs[j]).status != StepStatus::Failed by {
            if j == rs.len() - 1 {
                assert(rs[j] == rs.last());
            }
        }
    } else {
        assert(rs[rs.len() - 1] == rs.last());
    }
}

/// Why a step was skipped.
pub open spec fn skip_reason_text() -> Seq<char> {
    "when evaluated to false"@
}

pub open spec fn masked_opt(o: Option<Seq<char>>, secrets: Seq<Seq<char>>) -> Option<Seq<char>> {
    match o {
        Some(t) => Some(masked(t, secrets)),
        None => None,
    }
}

fn mask_opt(o: Option<&str>, secrets: &[String]) -> (r: Option<String>)
    ensures
        opt_view(r) == masked_opt(opt_str_view(o), strings_view(secrets@)),
{
    match o {
        Some(t) => Some(mask_secrets(t, secrets)),
        None => None,
    }
}

fn copy_opt(o: Option<&str>) -> (r: Option<String>)
    ensures
        opt_view(r) == opt_str_view(o),
{
    match o {
        Some(t) => Some(t.to_owned()),
        None => None,
    }
}

/// The record of a step whose `when` condition was false.
pub fn skipped_step_record(step: &Step, index: usize, when: &str, secrets: &[String]) -> (r: StepRecord)
    ensures
        r.index == index,
        opt_view(r.name) == step_name(step@),
        r.step_type@ == step_kind(step@),
        r.status == StepStatus::Skipped,
        r.command is None,
        r.path is None,
        opt_view(r.when) == Some(masked(when@, strings_view(secrets@))),
        opt_view(r.skip_reason) == Some(skip_reason_text()),
        r.exit_code is None,
        r.stdout_snippet is None,
        r.stderr_snippet is None,
        r.backup_path is None,
{
    StepRecord {
        index,
        name: copy_opt(step.name()),
        step_type: (step.kind()).to_owned(),
        status: StepStatus::Skipped,
        command: None,
        path: None,
        when: Some(mask_secrets(when, secrets)),
        skip_reason: Some("when evaluated to false".to_owned()),
        exit_code: None,
        stdout_snippet: None,
        stderr_snippet: None,
        backup_path: None,
    }
}

/// The command of a shell step as the log shows it: interpolated and masked; nothing when it
/// does not interpolate or the step is not a shell step.
pub open spec fn command_for_log_spec(
    s: SpecStep,
    vals: Seq<(Seq<char>, Seq<char>)>,
    secrets: Seq<Seq<char>>,
) -> Option<Seq<char>> {
    match command_spec(s) {
        Some(cmd) => match interpolation(cmd, vals) {
            Ok(c) => Some(masked(c, secrets)),
            Err(_) => None,
        },
        None => None,
    }
}

/// The command of a shell step as the log shows it.
pub fn shell_command_for_log(step: &Step, values: &[(String, String)], secrets: &[String]) -> (r: Option<String>)
    ensures
        opt_view(r) == command_for_log_spec(step@, pairs_view(values@), strings_view(secrets@)),
{
    match step.command_for_inspect() {
        Some(cmd) => match interpolate(cmd, values) {
            Ok(c) => Some(mask_secrets(c.as_str(), secrets)),
            Err(_) => None,
        },
        None => None,
    }
}

/// The path a file step writes, as the log shows it: interpolated and masked; nothing when it
/// does not interpolate or the step is a shell step.
pub open spec fn path_for_log_spec(
    s: SpecStep,
    vals: Seq<(Seq<char>, Seq<char>)>,
    secrets: Seq<Seq<char>>,
) -> Option<Seq<char>> {
    match written_path_spec(s) {
        Some(p) => match interpolation(p, vals) {
            Ok(t) => Some(masked(t, secrets)),
            Err(_) => None,
        },
        None => None,
    }
}

/// The path a file step writes, as the log shows it.
pub fn file_path_for_log(step: &Step, values: &[(String, String)], secrets: &[String]) -> (r: Option<String>)
    ensures
        opt_view(r) == path_for_log_spec(step@, pairs_view(values@), strings_view(secrets@)),
{
    match step.path_for_inspect() {
        Some(p) => match interpolate(p, values) {
            Ok(t) => Some(mask_secrets(t.as_str(), secrets)),
            Err(_) => None,
        },
        None => None,
    }
}

/// The record of a step that could not run or whose condition could not be evaluated: it
/// failed with the error as its standard error, masked.
pub fn error_step_record(
    step: &Step,
    index: usize,
    values: &[(String, String)],
    secrets: &[String],
    error: &str,
) -> (r: StepRecord)
    ensures
        r.index == index,
        opt_view(r.name) == step_name(step@),
        r.step_type@ == step_kind(step@),
        r.status == StepStatus::Failed,
        opt_view(r.command) == command_for_log_spec(step@, pairs_view(values@), strings_view(secrets@)),
        opt_view(r.path) == path_for_log_spec(step@, pairs_view(values@), strings_view(secrets@)),
        opt_view(r.when) == masked_opt(step_when(step@), strings_view(secrets@)),
        r.skip_reason is None,
        r.exit_code is None,
        r.stdout_snippet is None,
        opt_view(r.stderr_snippet) == Some(masked(error@, strings_view(secrets@))),
        r.backup_path is None,
{
    StepRecord {
        index,
        name: copy_opt(step.name()),
        step_type: (step.kind()).to_owned(),
        status: StepStatus::Failed,
        command: shell_command_for_log(step, values, secrets),
        path: file_path_for_log(step, values, secrets),
        when: mask_opt(step.when(), secrets),
        skip_reason: None,
        exit_code: None,
        stdout_snippet: None,
        stderr_snippet: Some(mask_secrets(error, secrets)),
        backup_path: None,
    }
}

/// A step's status from the exit code of its command: only `0` is success.
pub fn status_for_exit(exit_code: i32) -> (r: StepStatus)
    ensures
        r == (if exit_code == 0 { StepStatus::Success } else { StepStatus::Failed }),
{
    if exit_code == 0 {
        StepStatus::Success
    } else {
        StepStatus::Failed
    }
}

/// The record of a shell step that ran `command` (interpolated) and exited with `exit_code`.
pub fn shell_step_record(
    step: &Step,
    index: usize,
    command: &str,
    secrets: &[String],
    exit_code: i32,
    stdout_snippet: Option<String>,
    stderr_snippet: Option<String>,
) -> (r: StepRecord)
    ensures
        r.index == index,
        opt_view(r.name) == step_name(step@),
        r.step_type@ == step_kind(step@),
        r.status == (if exit_code == 0 { StepStatus::Success } else { StepStatus::Failed }),
        opt_view(r.command) == Some(masked(command@, strings_view(secrets@))),
        r.path is None,
        opt_view(r.when) == masked_opt(step_when(step@), strings_view(secrets@)),
        r.skip_reason is None,
        r.exit_code == Some(exit_code),
        r.stdout_snippet == stdout_snippet,
        r.stderr_snippet == stderr_snippet,
        r.backup_path is None,
{
    StepRecord {
        index,
        name: copy_opt(step.name()),
        step_type: (step.kind()).to_owned(),
        status: status_for_exit(exit_code),
        command: Some(mask_secrets(command, secrets)),
        path: None,
        when: mask_opt(step.when(), secrets),
        skip_reason: None,
        exit_code: Some(exit_code),
        stdout_snippet,
        stderr_snippet,
        backup_path: None,
    }
}

/// The record of a file step that succeeded on `target`, with the backup it made if any.
pub fn file_step_record(
    step: &Step,
    index: usize,
    target: &str,
    secrets: &[String],
    backup_path: Option<String>,
) -> (r: StepRecord)
    ensures
        r.index == index,
        opt_view(r.name) == step_name(step@),
        r.step_type@ == step_kind(step@),
        r.status == StepStatus::Success,
        r.command is None,
        opt_view(r.path) == Some(masked(target@, strings_view(secrets@))),
        opt_view(r.when) == masked_opt(step_when(step@), strings_view(secrets@)),
        r.skip_reason is None,
        r.exit_code is None,
        r.stdout_snippet is None,
        r.stderr_snippet is None,
        r.backup_path == backup_path,
{
    StepRecord {
        index,
        name: copy_opt(step.name()),
        step_type: (step.kind()).to_owned(),
        status: StepStatus::Success,
        command: None,
        path: Some(mask_secrets(target, secrets)),
        when: mask_opt(step.when(), secrets),
        skip_reason: None,
        exit_code: None,
        stdout_snippet: None,
        stderr_snippet: None,
        backup_path,
    }
}

/// The environment of a shell step with each value interpolated; the first value that does
/// not interpolate is the error.
pub open spec fn env_spec(
    env: Seq<(Seq<char>, Seq<char>)>,
    vals: Seq<(Seq<char>, Seq<char>)>,
) -> Result<Seq<(Seq<char>, Seq<char>)>, SpecInterpolateError>
    decreases env.len(),
{
    if env.len() == 0 {
        Ok(Seq::empty())
    } else {
        match env_spec(env.drop_last(), vals) {
            Err(e) => Err(e),
            Ok(done) => match interpolation(env.last().1, vals) {
                Err(e) => Err(e),
                Ok(v) => Ok(done.push((env.last().0, v))),
            },
        }
    }
}

/// The environment of a shell step with each value interpolated.
pub fn interpolate_env(env: &[(String, String)], values: &[(String, String)]) -> (r: Result<
    Vec<(String, String)>,
    crate::interpolate::InterpolateError,
>)
    ensures
        match r {
            Ok(v) => env_spec(pairs_view(env@), pairs_view(values@)) == Ok::<
                Seq<(Seq<char>, Seq<char>)>,
                SpecInterpolateError,
            >(pairs_view(v@)),
            Err(e) => env_spec(pairs_view(env@), pairs_view(values@)) == Err::<
                Seq<(Seq<char>, Seq<char>)>,
                SpecInterpolateError,
            >(e@),
        },
{
    let ghost ev = pairs_view(env@);
    let mut out: Vec<(String, String)> = Vec::new();
    let mut i: usize = 0;
    proof {
        assert(ev.take(0) =~= Seq::<(Seq<char>, Seq<char>)>::empty());
        assert(pairs_view(out@) =~= Seq::<(Seq<char>, Seq<char>)>::empty());
    }
    while i < env.len()
        invariant
            0 <= i <= env@.len(),
            ev == pairs_view(env@),
            env_spec(ev.take(i as int), pairs_view(values@)) == Ok::<
                Seq<(Seq<char>, Seq<char>)>,
                SpecInterpolateError,
            >(pairs_view(out@)),
        decreases env@.len() - i,
    {
        proof {
            assert(ev.take(i + 1).drop_last() =~= ev.take(i as int));
        }
        match interpolate(env[i].1.as_str(), values) {
            Err(e) => {
                proof {
                    lemma_env_spec_error(ev, pairs_view(values@), i + 1);
                }
                return Err(e);
            },
            Ok(v) => {
                let ghost before = pairs_view(out@);
                out.push((env[i].0.as_str().to_owned(), v));
                proof {
                    assert(pairs_view(out@) =~= before.push((ev[i as int].0, pairs_view(out@).last().1)));
                }
            },
        }
        i = i + 1;
    }
    proof {
        assert(ev.take(env@.len() as int) =~= ev);
    }
    Ok(out)
}

proof fn lemma_env_spec_error(env: Seq<(Seq<char>, Seq<char>)>, vals: Seq<(Seq<char>, Seq<char>)>, n: int)
    requires
        0 < n <= env.len(),
        env_spec(env.take(n), vals) is Err,
    ensures
        env_spec(env, vals) == env_spec(env.take(n), vals),
    decreases env.len() - n,
{
    if n < env.len() {
        assert(env.take(n + 1).drop_last() =~= env.take(n));
        lemma_env_spec_error(env, vals, n + 1);
    } else {
        assert(env.take(n) =~= env);
    }
}

/// An answer to `Okay to proceed?` agrees when, trimmed and in lower case, it is `y` or `yes`.
pub open spec fn agrees(answer: Seq<char>) -> bool {
    let a = crate::text::ascii_lowercase(crate::text::trim(answer));
    a == "y"@ || a == "yes"@
}

/// Whether an answer to `Okay to proceed?` agrees.
pub fn confirm_answer(answer: &str) -> (r: bool)
    ensures
        r == agrees(answer@),
{
    let a = crate::text::ascii_lowercase_exec(&crate::text::trim_exec(&chars_of(answer)));
    crate::text::chars_eq(&a, &chars_of("y")) || crate::text::chars_eq(&a, &chars_of("yes"))
}

/// A number written with at least two digits.
pub open spec fn two_digits(n: nat) -> Seq<char> {
    if n < 10 {
        seq!['0'] + decimal(n)
    } else {
        decimal(n)
    }
}

/// The directory, under the run's `backups`, that holds what a step overwrote: `step-01`.
pub fn backup_dir_name(step_index: usize) -> (r: String)
    ensures
        r@ == "step-"@ + two_digits(step_index as nat),
{
    let digits = decimal_exec(step_index as u64);
    let mut v: Vec<char> = chars_of("step-");
    if step_index < 10 {
        v.push('0');
    }
    crate::text::push_all(&mut v, &digits);
    proof {
        if step_index < 10 {
            assert(v@ =~= "step-"@ + (seq!['0'] + decimal(step_index as nat)));
        } else {
            assert(v@ =~= "step-"@ + decimal(step_index as nat));
        }
    }
    string_of(&v)
}

/// Lines of text as sequences of characters.
pub open spec fn lines_view(v: Seq<String>) -> Seq<Seq<char>> {
    v.map_values(|s: String| s@)
}

fn extend_lines(out: &mut Vec<String>, more: Vec<String>)
    ensures
        lines_view(final(out)@) == lines_view(old(out)@) + lines_view(more@),
{
    let ghost start = lines_view(out@);
    let mut more = more;
    let mut taken: Vec<String> = Vec::new();
    let ghost all = lines_view(more@);
    let mut i: usize = 0;
    let n = more.len();
    while i < n
        invariant
            0 <= i <= n,
            n == all.len(),
            lines_view(out@) == start + all.take(i as int),
            more@.len() == n,
            forall|k: int| i <= k < n ==> more@[k]@ == #[trigger] all[k],
        decreases n - i,
    {
        let line = more[i].as_str().to_owned();
        let ghost before = lines_view(out@);
        out.push(line);
        proof {
            assert(lines_view(out@) =~= before.push(all[i as int]));
            assert(all.take(i + 1) =~= all.take(i as int).push(all[i as int]));
        }
        i = i + 1;
    }
    proof {
        assert(all.take(n as int) =~= all);
    }
}

fn line(s: &str) -> (r: String)
    ensures
        r@ == s@,
{
    s.to_owned()
}

/// The plan lines of the steps: each numbered from 1 with its plan line, and its `when`
/// condition below it when it has one.
pub open spec fn step_lines_spec(steps: Seq<SpecStep>) -> Seq<Seq<char>>
    decreases steps.len(),
{
    if steps.len() == 0 {
        Seq::empty()
    } else {
        let s = steps.last();
        step_lines_spec(steps.drop_last()) + seq![decimal(steps.len()) + ". "@ + plan_line_spec(s)]
            + match step_when(s) {
            Some(w) => seq!["   When: "@ + w],
            None => Seq::empty(),
        }
    }
}

fn step_lines(steps: &Vec<Step>) -> (r: Vec<String>)
    ensures
        lines_view(r@) == step_lines_spec(steps_view(steps@)),
{
    let ghost sv = steps_view(steps@);
    let mut out: Vec<String> = Vec::new();
    let mut i: usize = 0;
    proof {
        assert(lines_view(out@) =~= step_lines_spec(sv.take(0)));
    }
    while i < steps.len()
        invariant
            0 <= i <= steps@.len(),
            sv == steps_view(steps@),
            lines_view(out@) == step_lines_spec(sv.take(i as int)),
        decreases steps@.len() - i,
    {
        proof {
            assert(sv.take(i + 1).drop_last() =~= sv.take(i as int));
            assert(sv.take(i + 1).last() == steps@[i as int]@);
        }
        let ghost before = lines_view(out@);
        let num = string_of(&decimal_exec((i + 1) as u64));
        let head = cat(num.as_str(), ". ");
        out.push(cat(head.as_str(), steps[i].plan_line().as_str()));
        let ghost mid = lines_view(out@);
        match steps[i].when() {
            Some(w) => {
                out.push(cat("   When: ", w));
                proof {
                    assert(lines_view(out@) =~= mid.push("   When: "@ + w@));
                }
            },
            None => {},
        }
        proof {
            let s = steps@[i as int]@;
            assert(mid =~= before + seq![decimal((i + 1) as nat) + ". "@ + plan_line_spec(s)]);
            let tail = match step_when(s) {
                Some(w) => seq!["   When: "@ + w],
                None => Seq::<Seq<char>>::empty(),
            };
            assert(lines_view(out@) =~= before + seq![decimal((i + 1) as nat) + ". "@ + plan_line_spec(s)] + tail);
        }
        i = i + 1;
    }
    proof {
        assert(sv.take(steps@.len() as int) =~= sv);
    }
    out
}

/// The lines that list the inputs a plan needs: `- name`, marked `[secret]` for a secret.
pub open spec fn plan_input_lines_spec(ins: Seq<SpecInput>) -> Seq<Seq<char>>
    decreases ins.len(),
{
    if ins.len() == 0 {
        Seq::empty()
    } else {
        let i = ins.last();
        plan_input_lines_spec(ins.drop_last()).push(
            if i.secret {
                "- "@ + i.name + " [secret]"@
            } else {
                "- "@ + i.name
            },
        )
    }
}

/// The lines that list inputs for inspection: `- name (required)` or `(optional)`, with
/// `, secret` for a secret.
pub open spec fn inspect_input_lines_spec(ins: Seq<SpecInput>) -> Seq<Seq<char>>
    decreases ins.len(),
{
    if ins.len() == 0 {
        Seq::empty()
    } else {
        let i = ins.last();
        let req = if i.required { "required"@ } else { "optional"@ };
        let sec = if i.secret { ", secret"@ } else { Seq::<char>::empty() };
        inspect_input_lines_spec(ins.drop_last()).push("- "@ + i.name + " ("@ + req + sec + ")"@)
    }
}

fn input_lines(inputs: &Vec<InputSpec>, detailed: bool) -> (r: Vec<String>)
    ensures
        lines_view(r@) == (if detailed {
            inspect_input_lines_spec(inputs_view(inputs@))
        } else {
            plan_input_lines_spec(inputs_view(inputs@))
        }),
{
    let ghost iv = inputs_view(inputs@);
    let mut out: Vec<String> = Vec::new();
    let mut i: usize = 0;
    proof {
        assert(lines_view(out@) =~= Seq::<Seq<char>>::empty());
    }
    while i < inputs.len()
        invariant
            0 <= i <= inputs@.len(),
            iv == inputs_view(inputs@),
            lines_view(out@) == (if detailed {
                inspect_input_lines_spec(iv.take(i as int))
            } else {
                plan_input_lines_spec(iv.take(i as int))
            }),
        decreases inputs@.len() - i,
    {
        proof {
            assert(iv.take(i + 1).drop_last() =~= iv.take(i as int));
            assert(iv.take(i + 1).last() == inputs@[i as int]@);
        }
        let input = &inputs[i];
        let a = cat("- ", input.name.as_str());
        let l = if detailed {
            let b = cat(a.as_str(), " (");
            let c = cat(b.as_str(), if input.required { "required" } else { "optional" });
            let d = cat(c.as_str(), if input.secret { ", secret" } else { "" });
            proof {
                reveal_strlit("");
                if !input.secret {
                    assert(c@ + ""@ =~= c@);
                }
            }
            cat(d.as_str(), ")")
        } else if input.secret {
            cat(a.as_str(), " [secret]")
        } else {
            a
        };
        let ghost before = lines_view(out@);
        out.push(l);
        proof {
            assert(lines_view(out@) =~= before.push(l@));
        }
        i = i + 1;
    }
    proof {
        assert(iv.take(inputs@.len() as int) =~= iv);
    }
    out
}

/// The lines that list the paths steps may write, or `- none`.
pub open spec fn path_lines_spec(steps: Seq<SpecStep>) -> Seq<Seq<char>>
    decreases steps.len(),
{
    if steps.len() == 0 {
        Seq::empty()
    } else {
        path_lines_spec(steps.drop_last()) + match written_path_spec(steps.last()) {
            Some(p) => seq!["- "@ + p],
            None => Seq::empty(),
        }
    }
}

/// The lines that list the commands steps may execute.
pub open spec fn command_lines_spec(steps: Seq<SpecStep>) -> Seq<Seq<char>>
    decreases steps.len(),
{
    if steps.len() == 0 {
        Seq::empty()
    } else {
        command_lines_spec(steps.drop_last()) + match command_spec(steps.last()) {
            Some(c) => seq!["- "@ + c],
            None => Seq::empty(),
        }
    }
}

/// A list under a heading, or `- none` when it is empty.
pub open spec fn listed(heading: Seq<char>, items: Seq<Seq<char>>) -> Seq<Seq<char>> {
    seq![heading] + if items.len() == 0 {
        seq!["- none"@]
    } else {
        items
    }
}

fn step_item_lines(steps: &Vec<Step>, commands: bool) -> (r: Vec<String>)
    ensures
        lines_view(r@) == (if commands {
            command_lines_spec(steps_view(steps@))
        } else {
            path_lines_spec(steps_view(steps@))
        }),
{
    let ghost sv = steps_view(steps@);
    let mut out: Vec<String> = Vec::new();
    let mut i: usize = 0;
    proof {
        assert(lines_view(out@) =~= Seq::<Seq<char>>::empty());
    }
    while i < steps.len()
        invariant
            0 <= i <= steps@.len(),
            sv == steps_view(steps@),
            lines_view(out@) == (if commands {
                command_lines_spec(sv.take(i as int))
            } else {
                path_lines_spec(sv.take(i as int))
            }),
        decreases steps@.len() - i,
    {
        proof {
            assert(sv.take(i + 1).drop_last() =~= sv.take(i as int));
            assert(sv.take(i + 1).last() == steps@[i as int]@);
        }
        let item = if commands {
            steps[i].command_for_inspect()
        } else {
            steps[i].path_for_inspect()
        };
        let ghost before = lines_view(out@);
        match item {
            Some(t) => {
                out.push(cat("- ", t));
                proof {
                    assert(lines_view(out@) =~= before + seq!["- "@ + t@]);
                }
            },
            None => {
                proof {
                    assert(lines_view(out@) =~= before + Seq::<Seq<char>>::empty());
                }
            },
        }
        i = i + 1;
    }
    proof {
        assert(sv.take(steps@.len() as int) =~= sv);
    }
    out
}

fn listed_lines(heading: &str, items: Vec<String>) -> (r: Vec<String>)
    ensures
        lines_view(r@) == listed(heading@, lines_view(items@)),
{
    let mut out: Vec<String> = Vec::new();
    out.push(line(heading));
    if items.len() == 0 {
        out.push(line("- none"));
        proof {
            assert(lines_view(out@) =~= listed(heading@, lines_view(items@)));
        }
    } else {
        let ghost h = lines_view(out@);
        extend_lines(&mut out, items);
        proof {
            assert(h =~= seq![heading@]);
        }
    }
    out
}

pub open spec fn opt_lines(o: Option<Seq<char>>, prefix: Seq<char>) -> Seq<Seq<char>> {
    match o {
        Some(t) => seq![prefix + t],
        None => Seq::empty(),
    }
}

/// The lines of the plan shown before a run (`will_do`) or for a dry run.
pub open spec fn plan_lines_spec(m: Manifest, will_do: bool) -> Seq<Seq<char>> {
    let ins = inputs_view(m.inputs@);
    seq!["Manifest: "@ + m.name@] + opt_lines(opt_view(m.description), Seq::empty())
        + (if m.allow_outside_cwd {
        seq!["Warning: this manifest allows file operations outside the working directory."@]
    } else {
        Seq::empty()
    }) + seq![if will_do { "Will do:"@ } else { "Plan:"@ }] + step_lines_spec(steps_view(m.steps@))
        + if ins.len() > 0 {
        seq!["Inputs required:"@] + plan_input_lines_spec(ins)
    } else {
        Seq::empty()
    }
}

/// The lines of the plan shown before a run, or for a dry run when `will_do`.
pub fn plan_lines(manifest: &Manifest, will_do: bool) -> (r: Vec<String>)
    ensures
        lines_view(r@) == plan_lines_spec(*manifest, will_do),
{
    let mut out: Vec<String> = Vec::new();
    out.push(cat("Manifest: ", manifest.name.as_str()));
    let ghost a = lines_view(out@);
    match &manifest.description {
        Some(d) => {
            out.push(line(d.as_str()));
        },
        None => {},
    }
    let ghost b = lines_view(out@);
    proof {
        assert(b =~= a + opt_lines(opt_view(manifest.description), Seq::empty()));
    }
    if manifest.allow_outside_cwd {
        out.push(line("Warning: this manifest allows file operations outside the working directory."));
    }
    let ghost c = lines_view(out@);
    out.push(line(if will_do { "Will do:" } else { "Plan:" }));
    let ghost d = lines_view(out@);
    extend_lines(&mut out, step_lines(&manifest.steps));
    let ghost e = lines_view(out@);
    if manifest.inputs.len() > 0 {
        out.push(line("Inputs required:"));
        extend_lines(&mut out, input_lines(&manifest.inputs, false));
    }
    proof {
        let ins = inputs_view(manifest.inputs@);
        assert(c =~= b + (if manifest.allow_outside_cwd {
            seq!["Warning: this manifest allows file operations outside the working directory."@]
        } else {
            Seq::<Seq<char>>::empty()
        }));
        assert(d =~= c + seq![if will_do { "Will do:"@ } else { "Plan:"@ }]);
        assert(lines_view(out@) =~= e + (if ins.len() > 0 {
            seq!["Inputs required:"@] + plan_input_lines_spec(ins)
        } else {
            Seq::<Seq<char>>::empty()
        }));
        assert(lines_view(out@) =~= plan_lines_spec(*manifest, will_do));
    }
    out
}

/// The lines of a dry run: the plan, then the files steps may write and the commands they may
/// execute.
pub open spec fn dry_run_lines_spec(m: Manifest) -> Seq<Seq<char>> {
    plan_lines_spec(m, true) + listed("Files that may be written:"@, path_lines_spec(steps_view(m.steps@)))
        + listed("Commands that may be executed:"@, command_lines_spec(steps_view(m.steps@)))
}

/// The lines a dry run shows. Nothing runs.
pub fn dry_run_manifest(manifest: &Manifest) -> (r: Vec<String>)
    ensures
        lines_view(r@) == dry_run_lines_spec(*manifest),
{
    let mut out = plan_lines(manifest, true);
    extend_lines(&mut out, listed_lines("Files that may be written:", step_item_lines(&manifest.steps, false)));
    extend_lines(&mut out, listed_lines("Commands that may be executed:", step_item_lines(&manifest.steps, true)));
    proof {
        assert(lines_view(out@) =~= dry_run_lines_spec(*manifest));
    }
    out
}

/// The lines that describe a manifest for inspection.
pub open spec fn inspect_lines_spec(m: Manifest) -> Seq<Seq<char>> {
    let ins = inputs_view(m.inputs@);
    let sv = steps_view(m.steps@);
    seq!["Name: "@ + m.name@] + opt_lines(opt_view(m.description), "Description: "@)
        + listed("Required inputs:"@, inspect_input_lines_spec(ins)) + seq!["Steps:"@]
        + step_lines_spec(sv) + listed("Files that may be written:"@, path_lines_spec(sv))
        + listed("Commands that may be executed:"@, command_lines_spec(sv))
}

/// The lines that describe a manifest: its inputs, steps, and what it may write and execute.
pub fn inspect_lines(manifest: &Manifest) -> (r: Vec<String>)
    ensures
        lines_view(r@) == inspect_lines_spec(*manifest),
{
    let mut out: Vec<String> = Vec::new();
    out.push(cat("Name: ", manifest.name.as_str()));
    let ghost a = lines_view(out@);
    match &manifest.description {
        Some(d) => {
            out.push(cat("Description: ", d.as_str()));
        },
        None => {},
    }
    let ghost b = lines_view(out@);
    proof {
        assert(b =~= a + opt_lines(opt_view(manifest.description), "Description: "@));
    }
    extend_lines(&mut out, listed_lines("Required inputs:", input_lines(&manifest.inputs, true)));
    let ghost c = lines_view(out@);
    out.push(line("Steps:"));
    let ghost d = lines_view(out@);
    extend_lines(&mut out, step_lines(&manifest.steps));
    extend_lines(&mut out, listed_lines("Files that may be written:", step_item_lines(&manifest.steps, false)));
    extend_lines(&mut out, listed_lines("Commands that may be executed:", step_item_lines(&manifest.steps, true)));
    proof {
        assert(d =~= c + seq!["Steps:"@]);
        assert(lines_view(out@) =~= inspect_lines_spec(*manifest));
    }
    out
}

/// Bytes of a character in UTF-8.
pub open spec fn utf8_width(c: char) -> nat {
    if (c as u32) < 0x80 {
        1
    } else if (c as u32) < 0x800 {
        2
    } else if (c as u32) < 0x10000 {
        3
    } else {
        4
    }
}

/// Bytes of a text in UTF-8, as `str::len` counts them.
pub open spec fn utf8_len(s: Seq<char>) -> nat
    decreases s.len(),
{
    if s.len() == 0 {
        0
    } else {
        utf8_len(s.drop_last()) + utf8_width(s.last())
    }
}

proof fn lemma_utf8_len_concat(a: Seq<char>, b: Seq<char>)
    ensures
        utf8_len(a + b) == utf8_len(a) + utf8_len(b),
    decreases b.len(),
{
    if b.len() == 0 {
        assert(a + b =~= a);
    } else {
        lemma_utf8_len_concat(a, b.drop_last());
        assert((a + b).drop_last() =~= a + b.drop_last());
    }
}

/// Lines joined with newlines.
pub open spec fn joined(lines: Seq<Seq<char>>) -> Seq<char>
    decreases lines.len(),
{
    if lines.len() == 0 {
        Seq::empty()
    } else if lines.len() == 1 {
        lines[0]
    } else {
        joined(lines.drop_last()) + seq!['\n'] + lines.last()
    }
}

/// The bytes up to which output lines are kept for a step's snippet.
pub open spec fn snippet_limit() -> nat {
    4000
}

/// The output lines kept for a snippet: each line is kept while the lines kept before it,
/// joined with newlines, are shorter than the limit.
pub open spec fn kept_lines(lines: Seq<Seq<char>>) -> Seq<Seq<char>>
    decreases lines.len(),
{
    if lines.len() == 0 {
        Seq::empty()
    } else {
        let k = kept_lines(lines.drop_last());
        if utf8_len(joined(k)) < snippet_limit() {
            k.push(lines.last())
        } else {
            k
        }
    }
}

/// The snippet of a step's output: the kept lines joined with newlines; none without output.
pub open spec fn snippet_spec(lines: Seq<Seq<char>>) -> Option<Seq<char>> {
    let k = kept_lines(lines);
    if k.len() == 0 {
        None
    } else {
        Some(joined(k))
    }
}

pub open spec fn min_nat(a: nat, b: nat) -> nat {
    if a < b {
        a
    } else {
        b
    }
}

fn capped_utf8_len(v: &[char], cap: usize) -> (r: usize)
    ensures
        r == min_nat(utf8_len(v@), cap as nat),
{
    let mut n: usize = 0;
    let mut i: usize = 0;
    while i < v.len()
        invariant
            0 <= i <= v@.len(),
            n == min_nat(utf8_len(v@.take(i as int)), cap as nat),
        decreases v@.len() - i,
    {
        proof {
            assert(v@.take(i + 1).drop_last() =~= v@.take(i as int));
        }
        let c = v[i] as u32;
        let w: usize = if c < 0x80 {
            1
        } else if c < 0x800 {
            2
        } else if c < 0x10000 {
            3
        } else {
            4
        };
        if n < cap {
            if w >= cap - n {
                n = cap;
            } else {
                n = n + w;
            }
        }
        i = i + 1;
    }
    proof {
        assert(v@.take(v@.len() as int) =~= v@);
    }
    n
}

/// The lines a step writes to one stream, kept for the snippet in its record.
pub struct SnippetBuffer {
    lines: Vec<String>,
    size: usize,
    seen: Ghost<Seq<Seq<char>>>,
}

impl SnippetBuffer {
    /// Every line the step wrote so far.
    pub closed spec fn seen(&self) -> Seq<Seq<char>> {
        self.seen@
    }

    pub closed spec fn wf(&self) -> bool {
        &&& lines_view(self.lines@) == kept_lines(self.seen@)
        &&& self.size == min_nat(utf8_len(joined(lines_view(self.lines@))), snippet_limit())
    }

    /// A buffer that has seen no line.
    pub fn new() -> (r: SnippetBuffer)
        ensures
            r.wf(),
            r.seen() == Seq::<Seq<char>>::empty(),
    {
        let r = SnippetBuffer { lines: Vec::new(), size: 0, seen: Ghost(Seq::empty()) };
        proof {
            assert(lines_view(r.lines@) =~= Seq::<Seq<char>>::empty());
        }
        r
    }

    /// Takes the next line the step wrote.
    pub fn push(&mut self, line: String)
        requires
            old(self).wf(),
        ensures
            final(self).wf(),
            final(self).seen() == old(self).seen().push(line@),
    {
        let ghost old_seen = self.seen@;
        let ghost l = line@;
        let ghost kept = lines_view(self.lines@);
        proof {
            assert(old_seen.push(l).drop_last() =~= old_seen);
        }
        if self.size < 4000 {
            let sep: usize = if self.lines.len() > 0 { 1 } else { 0 };
            let add = capped_utf8_len(&chars_of(line.as_str()), 4000);
            let total = self.size + sep + add;
            self.size = if total >= 4000 { 4000 } else { total };
            self.lines.push(line);
            proof {
                assert(lines_view(self.lines@) =~= kept.push(l));
                if kept.len() == 0 {
                    assert(joined(kept.push(l)) == l);
                } else {
                    assert(kept.push(l).drop_last() =~= kept);
                    assert(joined(kept.push(l)) == joined(kept) + seq!['\n'] + l);
                    lemma_utf8_len_concat(joined(kept) + seq!['\n'], l);
                    lemma_utf8_len_concat(joined(kept), seq!['\n']);
                    assert(utf8_len(seq!['\n']) == 1) by {
                        assert(seq!['\n'].drop_last() =~= Seq::<char>::empty());
                        assert(seq!['\n'].last() == '\n');
                        assert(('\n' as u32) == 10);
                        assert(utf8_width('\n') == 1);
                        assert(utf8_len(Seq::<char>::empty()) == 0);
                        assert(utf8_len(seq!['\n']) == utf8_len(seq!['\n'].drop_last()) + utf8_width('\n'));
                    }
                }
            }
        }
        self.seen = Ghost(old_seen.push(l));
    }

    /// The snippet: the kept lines joined with newlines, or none when the step wrote nothing.
    pub fn snippet(&self) -> (r: Option<String>)
        requires
            self.wf(),
        ensures
            match snippet_spec(self.seen()) {
                Some(t) => r matches Some(s) && s@ == t,
                None => r is None,
            },
    {
        if self.lines.len() == 0 {
            return None;
        }
        let ghost lv = lines_view(self.lines@);
        let mut out: Vec<char> = Vec::new();
        let mut i: usize = 0;
        while i < self.lines.len()
            invariant
                0 <= i <= self.lines@.len(),
                lv == lines_view(self.lines@),
                out@ == joined(lv.take(i as int)),
            decreases self.lines@.len() - i,
        {
            proof {
                assert(lv.take(i + 1).drop_last() =~= lv.take(i as int));
            }
            if i > 0 {
                out.push('\n');
            }
            crate::text::push_all(&mut out, &chars_of(self.lines[i].as_str()));
            i = i + 1;
            proof {
                if i == 1 {
                    assert(out@ =~= lv.take(1)[0]);
                } else {
                    assert(out@ =~= joined(lv.take(i - 1)) + seq!['\n'] + lv.take(i as int).last());
                }
            }
        }
        proof {
            assert(lv.take(self.lines@.len() as int) =~= lv);
        }
        Some(string_of(&out))
    }
}

/// The name a progress line shows for a step: its name, or its type.
pub open spec fn shown_step(s: SpecStep) -> Seq<char> {
    match step_name(s) {
        Some(n) => n,
        None => step_kind(s),
    }
}

/// The progress line for the step numbered `index` of `total`: `Running step 1/3: Install`,
/// or `Skipping step ...` for a skipped one.
pub fn progress_line(skipping: bool, index: usize, total: usize, step: &Step) -> (r: String)
    ensures
        r@ == (if skipping { "Skipping step "@ } else { "Running step "@ }) + decimal(index as nat)
            + "/"@ + decimal(total as nat) + ": "@ + shown_step(step@),
{
    let shown = match step.name() {
        Some(n) => n,
        None => step.kind(),
    };
    let a = if skipping { line("Skipping step ") } else { line("Running step ") };
    let b = cat(a.as_str(), string_of(&decimal_exec(index as u64)).as_str());
    let c = cat(b.as_str(), "/");
    let d = cat(c.as_str(), string_of(&decimal_exec(total as u64)).as_str());
    let e = cat(d.as_str(), ": ");
    cat(e.as_str(), shown)
}

/// The lines shown when a run ends: on success where its logs are; on failure which step
/// failed, with its name and exit code, and how to share the logs.
pub open spec fn outcome_lines_spec(
    status: RunStatus,
    steps: Seq<StepRecord>,
    failed: Option<usize>,
    total: usize,
    run_dir: Seq<char>,
) -> Seq<Seq<char>> {
    match status {
        RunStatus::Success => seq!["Run succeeded."@, "Logs saved to:"@, run_dir],
        RunStatus::Failed => {
            let head = seq!["Run failed."@];
            let detail = match failed {
                None => Seq::empty(),
                Some(index) => seq!["Failed step: "@ + decimal(index as nat) + " / "@ + decimal(total as nat)]
                    + match crate::logs::first_step_with(steps, index) {
                    None => Seq::empty(),
                    Some(k) => seq!["Step name: "@ + crate::logs::shown_name(opt_view(steps[k].name))]
                        + match steps[k].exit_code {
                        Some(c) => seq!["Exit code: "@ + crate::logs::signed_decimal(c as int)],
                        None => Seq::empty(),
                    },
                },
            };
            head + detail + seq![
                "Logs saved to:"@,
                run_dir,
                "For AI repair, share:"@,
                "tali logs latest"@,
            ]
        },
        _ => Seq::empty(),
    }
}

/// The lines shown when a run ends.
pub fn outcome_lines(progress: &RunProgress, run_dir: &str) -> (r: Vec<String>)
    ensures
        lines_view(r@) == outcome_lines_spec(
            progress.run_status(),
            progress.records(),
            progress.failed_index(),
            progress.step_total() as usize,
            run_dir@,
        ),
{
    let mut out: Vec<String> = Vec::new();
    match progress.status() {
        RunStatus::Success => {
            out.push(line("Run succeeded."));
            out.push(line("Logs saved to:"));
            out.push(line(run_dir));
            proof {
                assert(lines_view(out@) =~= seq!["Run succeeded."@, "Logs saved to:"@, run_dir@]);
            }
        },
        RunStatus::Failed => {
            out.push(line("Run failed."));
            let ghost head = lines_view(out@);
            let steps = progress.steps().as_slice();
            let total = progress.total_steps();
            match progress.failed_step_index() {
                None => {},
                Some(index) => {
                    let a = cat("Failed step: ", string_of(&decimal_exec(index as u64)).as_str());
                    let b = cat(a.as_str(), " / ");
                    out.push(cat(b.as_str(), string_of(&decimal_exec(total as u64)).as_str()));
                    let ghost l1 = lines_view(out@);
                    proof {
                        crate::logs::lemma_first_step_bounds(steps@, index);
                    }
                    match crate::logs::find_step(steps, index) {
                        None => {
                            proof {
                                assert(lines_view(out@) =~= l1 + Seq::<Seq<char>>::empty());
                            }
                        },
                        Some(k) => {
                            let name = match &steps[k].name {
                                Some(n) => line(n.as_str()),
                                None => line("<unnamed>"),
                            };
                            out.push(cat("Step name: ", name.as_str()));
                            let ghost l2 = lines_view(out@);
                            match steps[k].exit_code {
                                Some(c) => {
                                    out.push(cat("Exit code: ", crate::logs::exit_code_text(c).as_str()));
                                },
                                None => {},
                            }
                            proof {
                                assert(name@ == crate::logs::shown_name(opt_view(steps@[k as int].name)));
                                let tail = match steps@[k as int].exit_code {
                                    Some(c) => seq!["Exit code: "@ + crate::logs::signed_decimal(c as int)],
                                    None => Seq::<Seq<char>>::empty(),
                                };
                                assert(lines_view(out@) =~= l1 + (seq!["Step name: "@ + name@] + tail));
                                assert(crate::logs::first_step_with(steps@, index) == Some(k as int));
                            }
                        },
                    }
                    proof {
                        crate::logs::lemma_first_step_bounds(steps@, index);
                    }
                },
            }
            let ghost mid = lines_view(out@);
            proof {
                let rs = progress.records();
                let detail = match progress.failed_index() {
                    None => Seq::<Seq<char>>::empty(),
                    Some(index) => seq!["Failed step: "@ + decimal(index as nat) + " / "@ + decimal(progress.step_total() as usize as nat)]
                        + match crate::logs::first_step_with(rs, index) {
                        None => Seq::<Seq<char>>::empty(),
                        Some(k) => seq!["Step name: "@ + crate::logs::shown_name(opt_view(rs[k].name))]
                            + match rs[k].exit_code {
                            Some(c) => seq!["Exit code: "@ + crate::logs::signed_decimal(c as int)],
                            None => Seq::<Seq<char>>::empty(),
                        },
                    },
                };
                assert(mid =~= head + detail);
            }
            out.push(line("Logs saved to:"));
            out.push(line(run_dir));
            out.push(line("For AI repair, share:"));
            out.push(line("tali logs latest"));
            proof {
                assert(lines_view(out@) =~= mid + seq![
                    "Logs saved to:"@,
                    run_dir@,
                    "For AI repair, share:"@,
                    "tali logs latest"@,
                ]);
                assert(lines_view(out@) =~= outcome_lines_spec(
                    progress.run_status(),
                    progress.records(),
                    progress.failed_index(),
                    progress.step_total() as usize,
                    run_dir@,
                ));
            }
        },
        _ => {
            proof {
                assert(lines_view(out@) =~= Seq::<Seq<char>>::empty());
            }
        },
    }
    out
}

/// An ASCII letter or digit.
pub open spec fn ascii_alnum(c: char) -> bool {
    ('a' <= c <= 'z') || ('A' <= c <= 'Z') || ('0' <= c <= '9')
}

/// `rand`'s `thread_rng().sample_iter(&Alphanumeric)`, `n` samples as characters: each is
/// one of `A-Z`, `a-z`, `0-9`, as `rand` documents for `Alphanumeric`. Which ones is chance.
#[verifier::external_body]
pub(crate) fn random_alphanumeric(n: usize) -> (r: String)
    ensures
        r@.len() == n,
        forall|i: int| 0 <= i < n ==> ascii_alnum(#[trigger] r@[i]),
{
    rand::thread_rng().sample_iter(&rand::distributions::Alphanumeric).take(n).map(char::from).collect()
}

/// A new run id: `run-`, the start time as given (`%Y%m%d%H%M%S`), `-`, and eight random
/// ASCII letters and digits.
pub fn generate_run_id(started: &str) -> (r: String)
    ensures
        r@.len() == 5 + started@.len() + 8,
        r@.take(5 + started@.len() as int) == "run-"@ + started@ + "-"@,
        forall|i: int| 5 + started@.len() <= i < r@.len() ==> ascii_alnum(#[trigger] r@[i]),
{
    let random = random_alphanumeric(8);
    let a = cat("run-", started);
    let b = cat(a.as_str(), "-");
    let r = cat(b.as_str(), random.as_str());
    proof {
        reveal_strlit("run-");
        reveal_strlit("-");
        assert(r@.take(5 + started@.len() as int) =~= b@);
        assert forall|i: int| 5 + started@.len() <= i < r@.len() implies ascii_alnum(#[trigger] r@[i]) by {
            assert(r@[i] == random@[i - (5 + started@.len())]);
        }
    }
    r
}

/// Why a `replace_in_file` step failed.
#[derive(Debug, Clone, PartialEq, Eq)]
pub enum ReplaceError {
    /// A placeholder does not occur while matches are required.
    NoMatch(String),
    /// The total number of replacements is not the expected one.
    UnexpectedCount { expected: usize, actual: u128 },
}

pub enum SpecReplaceError {
    NoMatch(Seq<char>),
    UnexpectedCount { expected: usize, actual: nat },
}

impl View for ReplaceError {
    type V = SpecReplaceError;

    open spec fn view(&self) -> SpecReplaceError {
        match self {
            ReplaceError::NoMatch(p) => SpecReplaceError::NoMatch(p@),
            ReplaceError::UnexpectedCount { expected, actual } => SpecReplaceError::UnexpectedCount {
                expected: *expected,
                actual: *actual as nat,
            },
        }
    }
}

/// The replacements made in turn, in key order: each placeholder is replaced everywhere by its
/// value, counting the matches; with `require_match`, a placeholder that does not occur is an
/// error.
pub open spec fn replace_steps(
    content: Seq<char>,
    reps: Seq<(Seq<char>, Seq<char>)>,
    require_match: bool,
) -> Result<(Seq<char>, nat), Seq<char>>
    decreases reps.len(),
{
    if reps.len() == 0 {
        Ok((content, 0))
    } else {
        match replace_steps(content, reps.drop_last(), require_match) {
            Err(p) => Err(p),
            Ok((c, n)) => {
                let (p, v) = reps.last();
                let m = crate::text::count_all(c, p);
                if require_match && m == 0 {
                    Err(p)
                } else {
                    Ok((crate::text::replace_all(c, p, v), n + m))
                }
            },
        }
    }
}

/// What a `replace_in_file` step writes, and how many replacements it made: the replacements in
/// turn, then the total checked against `expected_matches` when there is one.
pub open spec fn replace_spec(
    content: Seq<char>,
    reps: Seq<(Seq<char>, Seq<char>)>,
    require_match: bool,
    expected: Option<usize>,
) -> Result<(Seq<char>, nat), SpecReplaceError> {
    match replace_steps(content, reps, require_match) {
        Err(p) => Err(SpecReplaceError::NoMatch(p)),
        Ok((c, n)) => match expected {
            Some(e) => if e != n {
                Err(SpecReplaceError::UnexpectedCount { expected: e, actual: n })
            } else {
                Ok((c, n))
            },
            None => Ok((c, n)),
        },
    }
}

proof fn lemma_replace_steps_err(
    content: Seq<char>,
    reps: Seq<(Seq<char>, Seq<char>)>,
    require_match: bool,
    n: int,
)
    requires
        0 < n <= reps.len(),
        replace_steps(content, reps.take(n), require_match) is Err,
    ensures
        replace_steps(content, reps, require_match) == replace_steps(content, reps.take(n), require_match),
    decreases reps.len() - n,
{
    if n < reps.len() {
        assert(reps.take(n + 1).drop_last() =~= reps.take(n));
        lemma_replace_steps_err(content, reps, require_match, n + 1);
    } else {
        assert(reps.take(n) =~= reps);
    }
}

/// Each key comes before the next in the order of `String`: the keys of a map kept in key
/// order, each once.
pub open spec fn keys_ascending(pairs: Seq<(Seq<char>, Seq<char>)>) -> bool {
    forall|i: int| 0 <= i < pairs.len() - 1 ==> crate::text::text_less(#[trigger] pairs[i].0, pairs[i + 1].0)
}

/// Whether the keys of `pairs` are in ascending order, each once.
pub fn keys_ascending_exec(pairs: &[(String, String)]) -> (r: bool)
    ensures
        r == keys_ascending(pairs_view(pairs@)),
{
    let ghost pv = pairs_view(pairs@);
    let mut i: usize = 0;
    while pairs.len() > 0 && i < pairs.len() - 1
        invariant
            pv == pairs_view(pairs@),
            0 <= i <= pairs@.len(),
            forall|j: int| 0 <= j < i && j < pairs@.len() - 1 ==> crate::text::text_less(#[trigger] pv[j].0, pv[j + 1].0),
        decreases pairs@.len() - i,
    {
        let a = chars_of(pairs[i].0.as_str());
        let b = chars_of(pairs[i + 1].0.as_str());
        if !crate::text::text_less_exec(&a, &b) {
            proof {
                assert(pv[i as int].0 == a@);
                assert(pv[i + 1].0 == b@);
            }
            return false;
        }
        proof {
            assert(pv[i as int].0 == a@);
            assert(pv[i + 1].0 == b@);
        }
        i = i + 1;
    }
    true
}

/// Fills the placeholders of a file's content. `replacements` pairs each placeholder, none
/// empty, with its value, already interpolated, in ascending order of the placeholders, as a
/// manifest's map keeps them; they are applied in that order.
pub fn replace_placeholders(
    content: &str,
    replacements: &[(String, String)],
    require_match: bool,
    expected_matches: Option<usize>,
) -> (r: Result<(String, u128), ReplaceError>)
    requires
        forall|i: int| 0 <= i < replacements@.len() ==> (#[trigger] replacements@[i]).0@.len() > 0,
        keys_ascending(pairs_view(replacements@)),
    ensures
        match r {
            Ok((c, n)) => replace_spec(content@, pairs_view(replacements@), require_match, expected_matches)
                == Ok::<(Seq<char>, nat), SpecReplaceError>((c@, n as nat)),
            Err(e) => replace_spec(content@, pairs_view(replacements@), require_match, expected_matches)
                == Err::<(Seq<char>, nat), SpecReplaceError>(e@),
        },
{
    let ghost rv = pairs_view(replacements@);
    let mut cur = chars_of(content);
    let mut total: u128 = 0;
    let mut i: usize = 0;
    proof {
        assert(rv.take(0) =~= Seq::<(Seq<char>, Seq<char>)>::empty());
    }
    while i < replacements.len()
        invariant
            0 <= i <= replacements@.len(),
            rv == pairs_view(replacements@),
            forall|j: int| 0 <= j < replacements@.len() ==> (#[trigger] replacements@[j]).0@.len() > 0,
            replace_steps(content@, rv.take(i as int), require_match) == Ok::<(Seq<char>, nat), Seq<char>>(
                (cur@, total as nat),
            ),
            total <= i * 0x1_0000_0000_0000_0000,
        decreases replacements@.len() - i,
    {
        proof {
            assert(rv.take(i + 1).drop_last() =~= rv.take(i as int));
            assert(rv.take(i + 1).last() == (replacements@[i as int].0@, replacements@[i as int].1@));
        }
        let pat = chars_of(replacements[i].0.as_str());
        assert(pat@.len() > 0);
        let m = crate::text::count_matches(&cur, &pat);
        if require_match && m == 0 {
            proof {
                lemma_replace_steps_err(content@, rv, require_match, i + 1);
            }
            return Err(ReplaceError::NoMatch(string_of(&pat)));
        }
        cur = crate::text::replace_all_exec(&cur, &pat, &chars_of(replacements[i].1.as_str()));
        total = total + m as u128;
        i = i + 1;
    }
    proof {
        assert(rv.take(replacements@.len() as int) =~= rv);
    }
    match expected_matches {
        Some(e) => {
            if (e as u128) != total {
                return Err(ReplaceError::UnexpectedCount { expected: e, actual: total });
            }
        },
        None => {},
    }
    Ok((string_of(&cur), total))
}

/// The program and arguments that run a shell command: PowerShell on Windows (`pwsh` when it
/// is available, else `powershell`) with `-NoProfile -Command`, elsewhere `sh -lc`.
pub fn shell_invocation(command: &str, is_windows: bool, pwsh_available: bool) -> (r: (String, Vec<String>))
    ensures
        is_windows ==> r.0@ == (if pwsh_available { "pwsh"@ } else { "powershell"@ }) && lines_view(r.1@)
            == seq!["-NoProfile"@, "-Command"@, command@],
        !is_windows ==> r.0@ == "sh"@ && lines_view(r.1@) == seq!["-lc"@, command@],
{
    let mut args: Vec<String> = Vec::new();
    if is_windows {
        let program = if pwsh_available { line("pwsh") } else { line("powershell") };
        args.push(line("-NoProfile"));
        args.push(line("-Command"));
        args.push(line(command));
        proof {
            assert(lines_view(args@) =~= seq!["-NoProfile"@, "-Command"@, command@]);
        }
        (program, args)
    } else {
        args.push(line("-lc"));
        args.push(line(command));
        proof {
            assert(lines_view(args@) =~= seq!["-lc"@, command@]);
        }
        (line("sh"), args)
    }
}

/// Writing over an existing target is refused unless the step allows it.
pub fn overwrite_refused(target_exists: bool, overwrite: bool) -> (r: bool)
    ensures
        r == (target_exists && !overwrite),
{
    target_exists && !overwrite
}

/// The record of a `replace_in_file` step that made `count` replacements in `target`: like
/// any file step, with the count as its only output, `replacements: <count>`.
pub fn replace_step_record(
    step: &Step,
    index: usize,
    target: &str,
    secrets: &[String],
    backup_path: Option<String>,
    count: u128,
) -> (r: StepRecord)
    requires
        count <= u64::MAX,
    ensures
        r.index == index,
        opt_view(r.name) == step_name(step@),
        r.step_type@ == step_kind(step@),
        r.status == StepStatus::Success,
        r.command is None,
        opt_view(r.path) == Some(masked(target@, strings_view(secrets@))),
        opt_view(r.when) == masked_opt(step_when(step@), strings_view(secrets@)),
        r.skip_reason is None,
        r.exit_code is None,
        opt_view(r.stdout_snippet) == Some("replacements: "@ + decimal(count as nat)),
        r.stderr_snippet is None,
        r.backup_path == backup_path,
{
    let mut r = file_step_record(step, index, target, secrets, backup_path);
    let n = string_of(&decimal_exec(count as u64));
    r.stdout_snippet = Some(cat("replacements: ", n.as_str()));
    r
}

} // verus!

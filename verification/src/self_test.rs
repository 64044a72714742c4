//! What `tali self-test` checks and reports.
use vstd::prelude::*;
use crate::numbers::{decimal, decimal_exec};
use crate::text::{cat, string_of};

verus! {

/// Whether a check, or the whole self-test, passed.
#[derive(Debug, Clone, Copy, PartialEq, Eq)]
pub enum SelfTestStatus {
    Passed,
    Failed,
}

/// One check of the self-test.
#[derive(Debug, Clone, PartialEq, Eq)]
pub struct SelfTestCheck {
    pub name: String,
    pub status: SelfTestStatus,
    pub detail: String,
}

/// A check that passed.
pub fn passed(name: &str, detail: &str) -> (r: SelfTestCheck)
    ensures
        r.name@ == name@,
        r.status == SelfTestStatus::Passed,
        r.detail@ == detail@,
{
    SelfTestCheck { name: name.to_owned(), status: SelfTestStatus::Passed, detail: detail.to_owned() }
}

/// A check that failed.
pub fn failed(name: &str, detail: &str) -> (r: SelfTestCheck)
    ensures
        r.name@ == name@,
        r.status == SelfTestStatus::Failed,
        r.detail@ == detail@,
{
    SelfTestCheck { name: name.to_owned(), status: SelfTestStatus::Failed, detail: detail.to_owned() }
}

/// The self-test passes when every check passed.
pub fn overall_status(checks: &[SelfTestCheck]) -> (r: SelfTestStatus)
    ensures
        r == SelfTestStatus::Passed <==> forall|i: int| 0 <= i < checks@.len() ==> (#[trigger] checks@[i]).status == SelfTestStatus::Passed,
{
    let mut i: usize = 0;
    while i < checks.len()
        invariant
            0 <= i <= checks@.len(),
            forall|k: int| 0 <= k < i ==> (#[trigger] checks@[k]).status == SelfTestStatus::Passed,
        decreases checks@.len() - i,
    {
        match checks[i].status {
            SelfTestStatus::Failed => {
                return SelfTestStatus::Failed;
            },
            SelfTestStatus::Passed => {},
        }
        i = i + 1;
    }
    SelfTestStatus::Passed
}

/// The doctor check: platform information needs an OS and an architecture.
pub fn check_doctor(os: &str, architecture: &str, tali_version: &str) -> (r: SelfTestCheck)
    ensures
        r.name@ == "doctor"@,
        (os@.len() == 0 || architecture@.len() == 0) ==> r.status == SelfTestStatus::Failed
            && r.detail@ == "platform information is incomplete"@,
        !(os@.len() == 0 || architecture@.len() == 0) ==> r.status == SelfTestStatus::Passed
            && r.detail@ == os@ + " / "@ + architecture@ + " / tali "@ + tali_version@,
{
    if os.is_empty() || architecture.is_empty() {
        failed("doctor", "platform information is incomplete")
    } else {
        let a = cat(os, " / ");
        let b = cat(a.as_str(), architecture);
        let c = cat(b.as_str(), " / tali ");
        let d = cat(c.as_str(), tali_version);
        passed("doctor", d.as_str())
    }
}

/// A check that a directory of the data directory exists: its path when it does.
fn directory_check(name: &str, path: &str, is_dir: bool) -> (r: SelfTestCheck)
    ensures
        r.name@ == name@,
        is_dir ==> r.status == SelfTestStatus::Passed && r.detail@ == path@,
        !is_dir ==> r.status == SelfTestStatus::Failed && r.detail@ == "missing directory "@ + path@,
{
    if is_dir {
        passed(name, path)
    } else {
        failed(name, cat("missing directory ", path).as_str())
    }
}

/// The five directories of a data directory, in the order of `Store::layout_dirs`.
pub open spec fn layout_spec(d: Seq<char>, windows: bool) -> Seq<Seq<char>> {
    seq![
        crate::paths::join(d, "manifests"@, windows),
        crate::paths::join(d, "runs"@, windows),
        crate::paths::join(d, "logs"@, windows),
        crate::paths::join(d, "cache"@, windows),
        crate::paths::join(d, "secrets"@, windows),
    ]
}

/// The checks that the five directories of the data directory exist, given whether each of
/// `store.layout_dirs()` is a directory, in that order.
pub fn check_store_layout(store: &crate::store::Store, is_dir: &[bool]) -> (r: Vec<SelfTestCheck>)
    requires
        is_dir@.len() == 5,
    ensures
        r@.len() == 5,
        r@[0].name@ == "manifests_dir"@,
        r@[1].name@ == "runs_dir"@,
        r@[2].name@ == "logs_dir"@,
        r@[3].name@ == "cache_dir"@,
        r@[4].name@ == "secrets_dir"@,
        forall|i: int|
            0 <= i < 5 ==> (is_dir@[i] ==> (#[trigger] r@[i]).status == SelfTestStatus::Passed
                && r@[i].detail@ == layout_spec(store.dir(), store.on_windows())[i]) && (!is_dir@[i]
                ==> r@[i].status == SelfTestStatus::Failed && r@[i].detail@ == "missing directory "@
                + layout_spec(store.dir(), store.on_windows())[i]),
{
    let dirs = store.layout_dirs();
    proof {
        assert(dirs@.map_values(|d: String| d@) =~= layout_spec(store.dir(), store.on_windows()));
    }
    let names = vec!["manifests_dir", "runs_dir", "logs_dir", "cache_dir", "secrets_dir"];
    let mut out: Vec<SelfTestCheck> = Vec::new();
    let mut i: usize = 0;
    while i < 5
        invariant
            0 <= i <= 5,
            is_dir@.len() == 5,
            dirs@.map_values(|d: String| d@) == layout_spec(store.dir(), store.on_windows()),
            dirs@.len() == 5,
            names@ == seq!["manifests_dir", "runs_dir", "logs_dir", "cache_dir", "secrets_dir"],
            out@.len() == i,
            forall|k: int| 0 <= k < i ==> (#[trigger] out@[k]).name@ == names@[k]@,
            forall|k: int|
                0 <= k < i ==> (is_dir@[k] ==> (#[trigger] out@[k]).status == SelfTestStatus::Passed
                    && out@[k].detail@ == layout_spec(store.dir(), store.on_windows())[k]) && (!is_dir@[k]
                    ==> out@[k].status == SelfTestStatus::Failed && out@[k].detail@ == "missing directory "@
                    + layout_spec(store.dir(), store.on_windows())[k]),
        decreases 5 - i,
    {
        assert(dirs@.map_values(|d: String| d@)[i as int] == dirs@[i as int]@);
        out.push(directory_check(names[i], dirs[i].as_str(), is_dir[i]));
        i = i + 1;
    }
    out
}

/// The check that the cache directory takes a file: its path, or the error.
pub fn check_cache_write(path: &str, error: Option<&str>) -> (r: SelfTestCheck)
    ensures
        r.name@ == "cache_write"@,
        error is None ==> r.status == SelfTestStatus::Passed && r.detail@ == path@,
        error matches Some(e) ==> r.status == SelfTestStatus::Failed && r.detail@ == e@,
{
    match error {
        None => passed("cache_write", path),
        Some(e) => failed("cache_write", e),
    }
}

/// The check that shell completions come out: their size, or a failure when empty.
pub fn check_completion_generation(bytes: usize) -> (r: SelfTestCheck)
    ensures
        r.name@ == "completion_generation"@,
        bytes == 0 ==> r.status == SelfTestStatus::Failed && r.detail@ == "generated completion was empty"@,
        bytes > 0 ==> r.status == SelfTestStatus::Passed && r.detail@ == decimal(bytes as nat) + " bytes"@,
{
    if bytes == 0 {
        failed("completion_generation", "generated completion was empty")
    } else {
        let n = string_of(&decimal_exec(bytes as u64));
        passed("completion_generation", cat(n.as_str(), " bytes").as_str())
    }
}

/// The name a status prints with.
pub open spec fn status_word(s: SelfTestStatus) -> Seq<char> {
    match s {
        SelfTestStatus::Passed => "Passed"@,
        SelfTestStatus::Failed => "Failed"@,
    }
}

fn status_text(s: SelfTestStatus) -> (r: String)
    ensures
        r@ == status_word(s),
{
    match s {
        SelfTestStatus::Passed => "Passed".to_owned(),
        SelfTestStatus::Failed => "Failed".to_owned(),
    }
}

/// The lines of the self-test report: the overall status, then each check with its detail.
pub open spec fn report_lines_spec(status: SelfTestStatus, checks: Seq<SelfTestCheck>) -> Seq<Seq<char>> {
    seq!["Tali self-test"@, "Status: "@ + status_word(status)] + Seq::new(
        checks.len(),
        |i: int| "- "@ + checks[i].name@ + ": "@ + status_word(checks[i].status) + " ("@ + checks[i].detail@ + ")"@,
    )
}

/// The lines of the self-test report.
pub fn report_lines(status: SelfTestStatus, checks: &[SelfTestCheck]) -> (r: Vec<String>)
    ensures
        r@.map_values(|s: String| s@) == report_lines_spec(status, checks@),
{
    let mut out: Vec<String> = Vec::new();
    out.push("Tali self-test".to_owned());
    out.push(cat("Status: ", status_text(status).as_str()));
    let ghost head = out@.map_values(|s: String| s@);
    let ghost tl = Seq::new(
        checks@.len(),
        |i: int| "- "@ + checks@[i].name@ + ": "@ + status_word(checks@[i].status) + " ("@ + checks@[i].detail@ + ")"@,
    );
    let mut i: usize = 0;
    while i < checks.len()
        invariant
            0 <= i <= checks@.len(),
            tl == Seq::new(
                checks@.len(),
                |i: int| "- "@ + checks@[i].name@ + ": "@ + status_word(checks@[i].status) + " ("@ + checks@[i].detail@ + ")"@,
            ),
            out@.map_values(|s: String| s@) == head + tl.take(i as int),
        decreases checks@.len() - i,
    {
        let c = &checks[i];
        let a = cat("- ", c.name.as_str());
        let b = cat(a.as_str(), ": ");
        let d = cat(b.as_str(), status_text(c.status).as_str());
        let e = cat(d.as_str(), " (");
        let f = cat(e.as_str(), c.detail.as_str());
        let l = cat(f.as_str(), ")");
        let ghost before = out@.map_values(|s: String| s@);
        out.push(l);
        proof {
            assert(l@ == tl[i as int]);
            assert(out@.map_values(|s: String| s@) =~= before.push(l@));
            assert(tl.take(i + 1) =~= tl.take(i as int).push(tl[i as int]));
        }
        i = i + 1;
    }
    proof {
        assert(tl.take(checks@.len() as int) =~= tl);
        assert(head =~= seq!["Tali self-test"@, "Status: "@ + status_word(status)]);
    }
    out
}

} // verus!

//! Cleanup of old runs and cache entries: which entries go, in what order, what that frees,
//! and what becomes the latest run afterwards.
use vstd::prelude::*;
use crate::numbers::{decimal, decimal_exec, format_bytes, format_bytes_spec};
use crate::text::{cat, chars_eq, chars_of, push_all, string_of};

verus! {

broadcast use {vstd::seq_lib::to_multiset_insert, vstd::seq_lib::to_multiset_build};

/// A point in time: seconds since the Unix epoch and nanoseconds within the second.
#[derive(Debug, Clone, Copy, PartialEq, Eq)]
pub struct Timestamp {
    pub secs: i64,
    pub nanos: u32,
}

/// `a` is earlier than `b`.
pub open spec fn ts_lt(a: Timestamp, b: Timestamp) -> bool {
    a.secs < b.secs || (a.secs == b.secs && a.nanos < b.nanos)
}

/// Whether `a` is earlier than `b`.
pub fn timestamp_before(a: Timestamp, b: Timestamp) -> (r: bool)
    ensures
        r == ts_lt(a, b),
{
    a.secs < b.secs || (a.secs == b.secs && a.nanos < b.nanos)
}

/// What cleanup was asked to do.
#[derive(Debug, Clone, PartialEq, Eq)]
pub struct CleanupOptions {
    pub older_than: String,
    pub dry_run: bool,
    pub yes: bool,
}

/// What an entry to clean up is.
#[derive(Debug, Clone, Copy, PartialEq, Eq)]
pub enum CleanupKind {
    Run,
    Cache,
}

/// An entry old enough to be cleaned up.
#[derive(Debug, Clone, PartialEq, Eq)]
pub struct CleanupCandidate {
    pub kind: CleanupKind,
    pub id: String,
    pub path: String,
    pub bytes: u64,
    pub timestamp: Timestamp,
}

pub struct SpecCandidate {
    pub kind: CleanupKind,
    pub id: Seq<char>,
    pub path: Seq<char>,
    pub bytes: u64,
    pub timestamp: Timestamp,
}

impl View for CleanupCandidate {
    type V = SpecCandidate;

    open spec fn view(&self) -> SpecCandidate {
        SpecCandidate {
            kind: self.kind,
            id: self.id@,
            path: self.path@,
            bytes: self.bytes,
            timestamp: self.timestamp,
        }
    }
}

pub open spec fn cands_view(v: Seq<CleanupCandidate>) -> Seq<SpecCandidate> {
    v.map_values(|c: CleanupCandidate| c@)
}

/// `a` comes before `b` in the order of `str`: by code point, a proper prefix first.
pub open spec fn text_lt(a: Seq<char>, b: Seq<char>) -> bool
    decreases a.len(),
{
    if a.len() == 0 {
        b.len() > 0
    } else if b.len() == 0 {
        false
    } else if a[0] != b[0] {
        a[0] < b[0]
    } else {
        text_lt(a.drop_first(), b.drop_first())
    }
}

pub proof fn lemma_text_lt_transitive(a: Seq<char>, b: Seq<char>, c: Seq<char>)
    requires
        text_lt(a, b),
        text_lt(b, c),
    ensures
        text_lt(a, c),
    decreases a.len(),
{
    if a.len() > 0 && b.len() > 0 && c.len() > 0 && a[0] == b[0] && b[0] == c[0] {
        lemma_text_lt_transitive(a.drop_first(), b.drop_first(), c.drop_first());
    }
}

/// Of two different texts, one comes before the other.
pub proof fn lemma_text_lt_total(a: Seq<char>, b: Seq<char>)
    requires
        a != b,
    ensures
        text_lt(a, b) || text_lt(b, a),
    decreases a.len(),
{
    if a.len() > 0 && b.len() > 0 && a[0] == b[0] {
        if a.drop_first() == b.drop_first() {
            assert(a =~= seq![a[0]] + a.drop_first());
            assert(b =~= seq![b[0]] + b.drop_first());
        }
        lemma_text_lt_total(a.drop_first(), b.drop_first());
    } else if a.len() == 0 && b.len() == 0 {
        assert(a =~= b);
    }
}

pub proof fn lemma_text_lt_irreflexive(a: Seq<char>)
    ensures
        !text_lt(a, a),
    decreases a.len(),
{
    if a.len() > 0 {
        lemma_text_lt_irreflexive(a.drop_first());
    }
}

/// Whether `a` comes before `b` in the order of `str`.
pub fn text_before(a: &[char], b: &[char]) -> (r: bool)
    ensures
        r == text_lt(a@, b@),
{
    let mut i: usize = 0;
    proof {
        assert(a@.skip(0) =~= a@);
        assert(b@.skip(0) =~= b@);
    }
    while i < a.len() && i < b.len() && a[i] == b[i]
        invariant
            0 <= i <= a@.len(),
            i <= b@.len(),
            text_lt(a@, b@) == text_lt(a@.skip(i as int), b@.skip(i as int)),
        decreases a@.len() - i,
    {
        proof {
            assert(a@.skip(i as int).drop_first() =~= a@.skip(i + 1));
            assert(b@.skip(i as int).drop_first() =~= b@.skip(i + 1));
        }
        i = i + 1;
    }
    if i == a.len() {
        i < b.len()
    } else if i == b.len() {
        false
    } else {
        a[i] < b[i]
    }
}

/// Candidates are ordered by time, then by path.
pub open spec fn cand_before(a: SpecCandidate, b: SpecCandidate) -> bool {
    ts_lt(a.timestamp, b.timestamp) || (a.timestamp == b.timestamp && text_lt(a.path, b.path))
}

pub proof fn lemma_cand_before_transitive(a: SpecCandidate, b: SpecCandidate, c: SpecCandidate)
    requires
        cand_before(a, b),
        cand_before(b, c),
    ensures
        cand_before(a, c),
{
    if a.timestamp == b.timestamp && b.timestamp == c.timestamp {
        lemma_text_lt_transitive(a.path, b.path, c.path);
    }
}

/// No candidate comes before one that precedes it.
pub open spec fn sorted_cands(s: Seq<SpecCandidate>) -> bool {
    forall|i: int, j: int| 0 <= i < j < s.len() ==> !cand_before(#[trigger] s[j], #[trigger] s[i])
}

fn candidate_before(a: &CleanupCandidate, b: &CleanupCandidate) -> (r: bool)
    ensures
        r == cand_before(a@, b@),
{
    if timestamp_before(a.timestamp, b.timestamp) {
        return true;
    }
    if a.timestamp.secs == b.timestamp.secs && a.timestamp.nanos == b.timestamp.nanos {
        text_before(&chars_of(a.path.as_str()), &chars_of(b.path.as_str()))
    } else {
        false
    }
}

/// The candidates ordered by time, then by path: the same candidates, sorted.
pub fn sort_candidates(candidates: Vec<CleanupCandidate>) -> (r: Vec<CleanupCandidate>)
    ensures
        sorted_cands(cands_view(r@)),
        cands_view(r@).to_multiset() == cands_view(candidates@).to_multiset(),
{
    let ghost input = cands_view(candidates@);
    let mut out: Vec<CleanupCandidate> = Vec::new();
    let mut rest = candidates;
    let ghost mut taken: Seq<SpecCandidate> = Seq::empty();
    proof {
        assert(cands_view(out@) =~= Seq::<SpecCandidate>::empty());
        assert(taken + cands_view(rest@) =~= input);
    }
    while rest.len() > 0
        invariant
            sorted_cands(cands_view(out@)),
            cands_view(out@).to_multiset() == taken.to_multiset(),
            taken + cands_view(rest@) == input,
        decreases rest@.len(),
    {
        let ghost before_rest = cands_view(rest@);
        let c = rest.remove(0);
        proof {
            assert(cands_view(rest@) =~= before_rest.drop_first());
            assert(before_rest[0] == c@);
        }
        let ghost ov = cands_view(out@);
        let mut p: usize = 0;
        while p < out.len() && !candidate_before(&c, &out[p])
            invariant
                0 <= p <= out@.len(),
                ov == cands_view(out@),
                forall|k: int| 0 <= k < p ==> !cand_before(c@, #[trigger] ov[k]),
            decreases out@.len() - p,
        {
            p = p + 1;
        }
        proof {
            assert forall|k: int| p <= k < ov.len() implies !cand_before(#[trigger] ov[k], c@) by {
                assert(cand_before(c@, ov[p as int]));
                if cand_before(ov[k], c@) {
                    lemma_cand_before_transitive(ov[k], c@, ov[p as int]);
                    if k == p {
                        lemma_text_lt_irreflexive(ov[k].path);
                    }
                    assert(!cand_before(ov[k], ov[p as int]));
                }
            }
        }
        out.insert(p, c);
        proof {
            let nv = ov.insert(p as int, c@);
            assert(cands_view(out@) =~= nv);
            assert forall|i: int, j: int| 0 <= i < j < nv.len() implies !cand_before(
                #[trigger] nv[j],
                #[trigger] nv[i],
            ) by {
                if i < p && j < p {
                    assert(nv[i] == ov[i] && nv[j] == ov[j]);
                } else if i < p && j == p {
                    assert(nv[i] == ov[i]);
                } else if i < p {
                    assert(nv[i] == ov[i] && nv[j] == ov[j - 1]);
                } else if i == p {
                    assert(nv[j] == ov[j - 1]);
                } else {
                    assert(nv[i] == ov[i - 1] && nv[j] == ov[j - 1]);
                }
            }
            let old_taken = taken;
            taken = taken.push(c@);
            assert(taken + cands_view(rest@) =~= input);
            assert(nv.to_multiset() == ov.to_multiset().insert(c@));
            assert(taken.to_multiset() == old_taken.to_multiset().insert(c@));
        }
    }
    proof {
        assert(taken =~= input);
    }
    out
}

/// The total size of the candidates.
pub open spec fn bytes_sum(s: Seq<SpecCandidate>) -> int
    decreases s.len(),
{
    if s.len() == 0 {
        0
    } else {
        bytes_sum(s.drop_last()) + s.last().bytes
    }
}

proof fn lemma_bytes_sum_prefix(s: Seq<SpecCandidate>, i: int)
    requires
        0 <= i <= s.len(),
    ensures
        bytes_sum(s.take(i)) <= bytes_sum(s),
    decreases s.len() - i,
{
    if i < s.len() {
        lemma_bytes_sum_prefix(s, i + 1);
        assert(s.take(i + 1).drop_last() =~= s.take(i));
    } else {
        assert(s.take(i) =~= s);
    }
}

/// The space the candidates take, which deleting them frees. A total beyond `u64` is out of
/// range.
pub fn bytes_to_free(candidates: &[CleanupCandidate]) -> (r: u64)
    requires
        bytes_sum(cands_view(candidates@)) <= u64::MAX,
    ensures
        r == bytes_sum(cands_view(candidates@)),
{
    let ghost cv = cands_view(candidates@);
    let mut total: u64 = 0;
    let mut i: usize = 0;
    while i < candidates.len()
        invariant
            0 <= i <= candidates@.len(),
            cv == cands_view(candidates@),
            bytes_sum(cv) <= u64::MAX,
            total == bytes_sum(cv.take(i as int)),
        decreases candidates@.len() - i,
    {
        proof {
            assert(cv.take(i + 1).drop_last() =~= cv.take(i as int));
            lemma_bytes_sum_prefix(cv, i + 1);
        }
        total = total + candidates[i].bytes;
        i = i + 1;
    }
    proof {
        assert(cv.take(candidates@.len() as int) =~= cv);
    }
    total
}

/// Entries are deleted only with `yes` and without `dry_run`.
pub fn should_delete(options: &CleanupOptions) -> (r: bool)
    ensures
        r == (options.yes && !options.dry_run),
{
    options.yes && !options.dry_run
}

/// A run directory is skipped while it is the running run, and is a candidate when older than
/// the cutoff.
#[derive(Debug, Clone, Copy, PartialEq, Eq)]
pub enum RunEntryClass {
    NotRun,
    Running,
    Scan,
}

/// How a child of the runs directory is treated: only directories are runs, and the running
/// run is never cleaned up.
pub fn classify_run_entry(id: &str, is_dir: bool, running_run_id: &str) -> (r: RunEntryClass)
    ensures
        !is_dir ==> r == RunEntryClass::NotRun,
        is_dir && id@ == running_run_id@ ==> r == RunEntryClass::Running,
        is_dir && id@ != running_run_id@ ==> r == RunEntryClass::Scan,
{
    if !is_dir {
        RunEntryClass::NotRun
    } else if chars_eq(&chars_of(id), &chars_of(running_run_id)) {
        RunEntryClass::Running
    } else {
        RunEntryClass::Scan
    }
}

/// The ids of the run candidates, in order.
pub open spec fn run_ids_spec(s: Seq<SpecCandidate>) -> Seq<Seq<char>>
    decreases s.len(),
{
    if s.len() == 0 {
        Seq::empty()
    } else if s.last().kind == CleanupKind::Run {
        run_ids_spec(s.drop_last()).push(s.last().id)
    } else {
        run_ids_spec(s.drop_last())
    }
}

/// The ids of the run candidates, in order.
pub fn deleted_run_ids(candidates: &[CleanupCandidate]) -> (r: Vec<String>)
    ensures
        r@.map_values(|s: String| s@) == run_ids_spec(cands_view(candidates@)),
{
    let ghost cv = cands_view(candidates@);
    let mut out: Vec<String> = Vec::new();
    let mut i: usize = 0;
    while i < candidates.len()
        invariant
            0 <= i <= candidates@.len(),
            cv == cands_view(candidates@),
            out@.map_values(|s: String| s@) == run_ids_spec(cv.take(i as int)),
        decreases candidates@.len() - i,
    {
        proof {
            assert(cv.take(i + 1).drop_last() =~= cv.take(i as int));
        }
        match candidates[i].kind {
            CleanupKind::Run => {
                let ghost before = out@.map_values(|s: String| s@);
                out.push(candidates[i].id.as_str().to_owned());
                proof {
                    assert(out@.map_values(|s: String| s@) =~= before.push(candidates@[i as int].id@));
                }
            },
            CleanupKind::Cache => {},
        }
        i = i + 1;
    }
    proof {
        assert(cv.take(candidates@.len() as int) =~= cv);
    }
    out
}

/// The latest run pointer needs a new target when cleanup deleted the run it names.
pub fn latest_was_deleted(deleted: &[String], latest: &str) -> (r: bool)
    ensures
        r == exists|i: int| 0 <= i < deleted@.len() && #[trigger] deleted@[i]@ == latest@,
{
    let mut i: usize = 0;
    while i < deleted.len()
        invariant
            0 <= i <= deleted@.len(),
            forall|k: int| 0 <= k < i ==> #[trigger] deleted@[k]@ != latest@,
        decreases deleted@.len() - i,
    {
        if chars_eq(&chars_of(deleted[i].as_str()), &chars_of(latest)) {
            return true;
        }
        i = i + 1;
    }
    false
}

/// The newest of the remaining runs: the first of those with the greatest time.
pub open spec fn newest_spec(runs: Seq<(Seq<char>, Timestamp)>) -> Option<int>
    decreases runs.len(),
{
    if runs.len() == 0 {
        None
    } else {
        match newest_spec(runs.drop_last()) {
            None => Some(runs.len() - 1),
            Some(k) => if ts_lt(runs[k].1, runs.last().1) {
                Some(runs.len() - 1)
            } else {
                Some(k)
            },
        }
    }
}

pub proof fn lemma_newest_is_newest(runs: Seq<(Seq<char>, Timestamp)>)
    ensures
        runs.len() == 0 <==> newest_spec(runs) is None,
        newest_spec(runs) matches Some(k) ==> 0 <= k < runs.len() && forall|j: int|
            0 <= j < runs.len() ==> !ts_lt(runs[k].1, #[trigger] runs[j].1),
    decreases runs.len(),
{
    if runs.len() > 0 {
        let pre = runs.drop_last();
        lemma_newest_is_newest(pre);
        match newest_spec(pre) {
            None => {},
            Some(k) => {
                if ts_lt(runs[k].1, runs.last().1) {
                    assert forall|j: int| 0 <= j < runs.len() implies !ts_lt(
                        runs[runs.len() - 1].1,
                        #[trigger] runs[j].1,
                    ) by {
                        if j < runs.len() - 1 {
                            assert(pre[j] == runs[j]);
                            assert(!ts_lt(pre[k].1, pre[j].1));
                        }
                    }
                } else {
                    assert forall|j: int| 0 <= j < runs.len() implies !ts_lt(runs[k].1, #[trigger] runs[j].1) by {
                        if j < runs.len() - 1 {
                            assert(pre[j] == runs[j]);
                            assert(!ts_lt(pre[k].1, pre[j].1));
                        }
                    }
                }
            },
        }
    }
}

/// The id of the newest remaining run, given each run's id and time.
pub fn newest_remaining_run(runs: &[(String, Timestamp)]) -> (r: Option<String>)
    ensures
        match newest_spec(runs@.map_values(|p: (String, Timestamp)| (p.0@, p.1))) {
            None => r is None,
            Some(k) => r matches Some(id) && id@ == runs@[k].0@,
        },
{
    let ghost rv = runs@.map_values(|p: (String, Timestamp)| (p.0@, p.1));
    let mut best: Option<usize> = None;
    let mut i: usize = 0;
    while i < runs.len()
        invariant
            0 <= i <= runs@.len(),
            rv == runs@.map_values(|p: (String, Timestamp)| (p.0@, p.1)),
            match newest_spec(rv.take(i as int)) {
                None => best is None,
                Some(k) => best == Some(k as usize),
            },
        decreases runs@.len() - i,
    {
        proof {
            assert(rv.take(i + 1).drop_last() =~= rv.take(i as int));
            lemma_newest_is_newest(rv.take(i as int));
        }
        match best {
            None => {
                best = Some(i);
            },
            Some(k) => {
                if timestamp_before(runs[k].1, runs[i].1) {
                    best = Some(i);
                }
            },
        }
        i = i + 1;
    }
    proof {
        assert(rv.take(runs@.len() as int) =~= rv);
        lemma_newest_is_newest(rv);
    }
    match best {
        None => None,
        Some(k) => Some(runs[k].0.as_str().to_owned()),
    }
}

/// What cleanup found and did.
#[derive(Debug, Clone, PartialEq, Eq)]
pub struct CleanupReport {
    pub older_than: String,
    pub cutoff: Timestamp,
    pub dry_run: bool,
    pub deleted: bool,
    pub candidates: Vec<CleanupCandidate>,
    pub deleted_count: usize,
    pub skipped_running_runs: Vec<String>,
    pub bytes_to_free: u64,
    pub bytes_freed: u64,
}

/// The report of a cleanup: the candidates in order; when entries are deleted (with `yes` and
/// without `dry_run`), all of them went and their space was freed, otherwise nothing was.
pub fn make_report(
    options: &CleanupOptions,
    cutoff: Timestamp,
    candidates: Vec<CleanupCandidate>,
    skipped_running_runs: Vec<String>,
) -> (r: CleanupReport)
    requires
        bytes_sum(cands_view(candidates@)) <= u64::MAX,
    ensures
        r.older_than@ == options.older_than@,
        r.cutoff == cutoff,
        r.deleted == (options.yes && !options.dry_run),
        r.dry_run == !r.deleted,
        sorted_cands(cands_view(r.candidates@)),
        cands_view(r.candidates@).to_multiset() == cands_view(candidates@).to_multiset(),
        r.skipped_running_runs@ == skipped_running_runs@,
        r.bytes_to_free == bytes_sum(cands_view(r.candidates@)),
        r.bytes_to_free == bytes_sum(cands_view(candidates@)),
        r.bytes_freed == (if r.deleted { r.bytes_to_free } else { 0 }),
        r.deleted_count == (if r.deleted { candidates@.len() } else { 0 }),
{
    let ghost input = cands_view(candidates@);
    let n = candidates.len();
    let total = bytes_to_free(&candidates);
    let sorted = sort_candidates(candidates);
    proof {
        lemma_bytes_sum_permutation(cands_view(sorted@), input);
        assert(cands_view(sorted@).len() == input.len()) by {
            vstd::seq_lib::to_multiset_len(cands_view(sorted@));
            vstd::seq_lib::to_multiset_len(input);
        }
    }
    let delete = should_delete(options);
    CleanupReport {
        older_than: options.older_than.as_str().to_owned(),
        cutoff,
        dry_run: !delete,
        deleted: delete,
        candidates: sorted,
        deleted_count: if delete { n } else { 0 },
        skipped_running_runs,
        bytes_to_free: total,
        bytes_freed: if delete { total } else { 0 },
    }
}

proof fn lemma_bytes_sum_remove(s: Seq<SpecCandidate>, i: int)
    requires
        0 <= i < s.len(),
    ensures
        bytes_sum(s) == s[i].bytes + bytes_sum(s.remove(i)),
    decreases s.len(),
{
    if i == s.len() - 1 {
        assert(s.remove(i) =~= s.drop_last());
    } else {
        lemma_bytes_sum_remove(s.drop_last(), i);
        assert(s.remove(i).drop_last() =~= s.drop_last().remove(i));
        assert(s.remove(i).last() == s.last());
    }
}

/// Sequences with the same elements have the same total size.
proof fn lemma_bytes_sum_permutation(a: Seq<SpecCandidate>, b: Seq<SpecCandidate>)
    requires
        a.to_multiset() == b.to_multiset(),
    ensures
        bytes_sum(a) == bytes_sum(b),
    decreases a.len(),
{
    vstd::seq_lib::to_multiset_len(a);
    vstd::seq_lib::to_multiset_len(b);
    if a.len() > 0 {
        let x = a.last();
        vstd::seq_lib::to_multiset_contains(a, x);
        assert(a.to_multiset().count(x) > 0) by {
            assert(a.contains(x)) by {
                assert(a[a.len() - 1] == x);
            }
        }
        vstd::seq_lib::to_multiset_contains(b, x);
        let i = choose|i: int| 0 <= i < b.len() && b[i] == x;
        vstd::seq_lib::to_multiset_remove(b, i);
        vstd::seq_lib::to_multiset_remove(a, a.len() - 1);
        assert(a.remove(a.len() - 1) =~= a.drop_last());
        lemma_bytes_sum_permutation(a.drop_last(), b.remove(i));
        lemma_bytes_sum_remove(b, i);
    }
}

/// The number of candidates of a kind.
pub open spec fn count_kind(s: Seq<SpecCandidate>, kind: CleanupKind) -> nat
    decreases s.len(),
{
    if s.len() == 0 {
        0
    } else {
        count_kind(s.drop_last(), kind) + if s.last().kind == kind { 1nat } else { 0nat }
    }
}

/// The number of candidates of a kind.
pub fn count_of_kind(candidates: &[CleanupCandidate], kind: CleanupKind) -> (r: usize)
    ensures
        r == count_kind(cands_view(candidates@), kind),
{
    let ghost cv = cands_view(candidates@);
    let mut n: usize = 0;
    let mut i: usize = 0;
    while i < candidates.len()
        invariant
            0 <= i <= candidates@.len(),
            cv == cands_view(candidates@),
            n == count_kind(cv.take(i as int), kind),
            n <= i,
        decreases candidates@.len() - i,
    {
        proof {
            assert(cv.take(i + 1).drop_last() =~= cv.take(i as int));
        }
        let same = match (candidates[i].kind, kind) {
            (CleanupKind::Run, CleanupKind::Run) => true,
            (CleanupKind::Cache, CleanupKind::Cache) => true,
            _ => false,
        };
        if same {
            n = n + 1;
        }
        i = i + 1;
    }
    proof {
        assert(cv.take(candidates@.len() as int) =~= cv);
    }
    n
}

/// Texts joined with `, `.
pub open spec fn join_comma(parts: Seq<Seq<char>>) -> Seq<char>
    decreases parts.len(),
{
    if parts.len() == 0 {
        Seq::empty()
    } else if parts.len() == 1 {
        parts[0]
    } else {
        join_comma(parts.drop_last()) + ", "@ + parts.last()
    }
}

fn join_comma_exec(parts: &Vec<String>) -> (r: String)
    ensures
        r@ == join_comma(parts@.map_values(|s: String| s@)),
{
    let ghost pv = parts@.map_values(|s: String| s@);
    let mut out: Vec<char> = Vec::new();
    let mut i: usize = 0;
    while i < parts.len()
        invariant
            0 <= i <= parts@.len(),
            pv == parts@.map_values(|s: String| s@),
            out@ == join_comma(pv.take(i as int)),
        decreases parts@.len() - i,
    {
        proof {
            assert(pv.take(i + 1).drop_last() =~= pv.take(i as int));
        }
        if i > 0 {
            push_all(&mut out, &chars_of(", "));
        }
        push_all(&mut out, &chars_of(parts[i].as_str()));
        i = i + 1;
        proof {
            if i == 1 {
                assert(out@ =~= pv.take(1)[0]);
            }
        }
    }
    proof {
        assert(pv.take(parts@.len() as int) =~= pv);
    }
    string_of(&out)
}

/// The lines that report a cleanup.
pub open spec fn report_lines_spec(
    deleted: bool,
    older_than: Seq<char>,
    runs: nat,
    caches: nat,
    bytes_to_free: u64,
    bytes_freed: u64,
    skipped: Seq<Seq<char>>,
) -> Seq<Seq<char>> {
    if deleted {
        seq![
            "Cleanup complete:"@,
            "Deleted run directories: "@ + decimal(runs),
            "Deleted cache entries: "@ + decimal(caches),
            "Freed: "@ + format_bytes_spec(bytes_freed as nat),
        ]
    } else {
        let head = seq![
            "Cleanup preview:"@,
            "Runs older than "@ + older_than + ": "@ + decimal(runs),
            "Cache entries older than "@ + older_than + ": "@ + decimal(caches),
            "Estimated space to free: "@ + format_bytes_spec(bytes_to_free as nat),
        ];
        let skip = if skipped.len() > 0 {
            seq!["Skipped running runs: "@ + join_comma(skipped)]
        } else {
            Seq::empty()
        };
        head + skip + seq![
            Seq::empty(),
            "Nothing deleted. Run with:"@,
            "tali cleanup --older-than "@ + older_than + " --yes"@,
        ]
    }
}

fn count_text(n: usize) -> (r: String)
    ensures
        r@ == decimal(n as nat),
{
    string_of(&decimal_exec(n as u64))
}

fn text(s: &str) -> (r: String)
    ensures
        r@ == s@,
{
    s.to_owned()
}

/// The lines that report a cleanup.
pub fn report_lines(report: &CleanupReport) -> (r: Vec<String>)
    ensures
        r@.map_values(|s: String| s@) == report_lines_spec(
            report.deleted,
            report.older_than@,
            count_kind(cands_view(report.candidates@), CleanupKind::Run),
            count_kind(cands_view(report.candidates@), CleanupKind::Cache),
            report.bytes_to_free,
            report.bytes_freed,
            report.skipped_running_runs@.map_values(|s: String| s@),
        ),
{
    let runs = count_of_kind(&report.candidates, CleanupKind::Run);
    let caches = count_of_kind(&report.candidates, CleanupKind::Cache);
    let mut out: Vec<String> = Vec::new();
    let o = report.older_than.as_str();
    let ghost skipped = report.skipped_running_runs@.map_values(|s: String| s@);
    let ghost rn = count_kind(cands_view(report.candidates@), CleanupKind::Run);
    let ghost cn = count_kind(cands_view(report.candidates@), CleanupKind::Cache);
    if report.deleted {
        out.push(text("Cleanup complete:"));
        out.push(cat("Deleted run directories: ", count_text(runs).as_str()));
        out.push(cat("Deleted cache entries: ", count_text(caches).as_str()));
        out.push(cat("Freed: ", format_bytes(report.bytes_freed).as_str()));
        proof {
            let spec = report_lines_spec(true, report.older_than@, rn, cn, report.bytes_to_free, report.bytes_freed, skipped);
            assert(out@.map_values(|s: String| s@) =~= spec);
        }
    } else {
        out.push(text("Cleanup preview:"));
        let a = cat("Runs older than ", o);
        let b = cat(a.as_str(), ": ");
        out.push(cat(b.as_str(), count_text(runs).as_str()));
        let c = cat("Cache entries older than ", o);
        let d = cat(c.as_str(), ": ");
        out.push(cat(d.as_str(), count_text(caches).as_str()));
        out.push(cat("Estimated space to free: ", format_bytes(report.bytes_to_free).as_str()));
        let ghost head = out@.map_values(|s: String| s@);
        if report.skipped_running_runs.len() > 0 {
            out.push(cat("Skipped running runs: ", join_comma_exec(&report.skipped_running_runs).as_str()));
        }
        let ghost mid = out@.map_values(|s: String| s@);
        out.push(text(""));
        out.push(text("Nothing deleted. Run with:"));
        let e = cat("tali cleanup --older-than ", o);
        out.push(cat(e.as_str(), " --yes"));
        proof {
            reveal_strlit("");
            let spec = report_lines_spec(false, report.older_than@, rn, cn, report.bytes_to_free, report.bytes_freed, skipped);
            let h = seq![
                "Cleanup preview:"@,
                "Runs older than "@ + report.older_than@ + ": "@ + decimal(rn),
                "Cache entries older than "@ + report.older_than@ + ": "@ + decimal(cn),
                "Estimated space to free: "@ + format_bytes_spec(report.bytes_to_free as nat),
            ];
            assert(head =~= h);
            let sk = if skipped.len() > 0 {
                seq!["Skipped running runs: "@ + join_comma(skipped)]
            } else {
                Seq::<Seq<char>>::empty()
            };
            assert(mid =~= h + sk);
            let fin = out@.map_values(|s: String| s@);
            assert(fin.len() == mid.len() + 3);
            assert(fin[mid.len() as int] =~= Seq::<char>::empty());
            assert(fin =~= mid + seq![
                Seq::<char>::empty(),
                "Nothing deleted. Run with:"@,
                "tali cleanup --older-than "@ + report.older_than@ + " --yes"@,
            ]);
            assert(fin =~= spec);
        }
    }
    out
}

} // verus!

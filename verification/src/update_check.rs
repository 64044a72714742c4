//! Release versions and the update check: which release is newer, what the release metadata
//! says, and when to tell the user.
use vstd::prelude::*;
use crate::numbers::{all_digits, digits_at_most, digits_value};
use crate::text::{cat, char_is_digit, chars_eq, chars_of, find_from, find_from_exec, is_digit, slice_copy, string_of, trim, trim_exec};
use crate::manifest::opt_view;
use crate::cleanup::Timestamp;

verus! {

/// The version of this build.
pub open spec fn current_version() -> Seq<char> {
    seq!['0', '.', '1', '.', '3']
}

/// The version of this build.
pub fn current_version_exec() -> (r: String)
    ensures
        r@ == current_version(),
{
    string_of(&vec!['0', '.', '1', '.', '3'])
}

pub open spec fn v_pred() -> spec_fn(char) -> bool {
    |c: char| c == 'v'
}

/// A version without surrounding whitespace and without its leading `v`s.
pub open spec fn normalize_version_spec(v: Seq<char>) -> Seq<char> {
    crate::text::trim_start_by(trim(v), v_pred())
}

pub fn normalize_version(version: &str) -> (r: Vec<char>)
    ensures
        r@ == normalize_version_spec(version@),
{
    let t = trim_exec(&chars_of(version));
    let mut a: usize = 0;
    while a < t.len() && t[a] == 'v'
        invariant
            0 <= a <= t@.len(),
            crate::text::skip_while(t@, v_pred(), 0) == crate::text::skip_while(t@, v_pred(), a as int),
        decreases t@.len() - a,
    {
        a = a + 1;
    }
    crate::text::slice_copy(&t, a, t.len())
}

/// The maximal runs of digits of `s[k..]`, the current run so far being `cur`.
pub open spec fn runs_from(s: Seq<char>, k: int, cur: Seq<char>) -> Seq<Seq<char>>
    decreases s.len() - k,
{
    if k < 0 || k >= s.len() {
        if cur.len() > 0 {
            seq![cur]
        } else {
            Seq::empty()
        }
    } else if is_digit(s[k]) {
        runs_from(s, k + 1, cur.push(s[k]))
    } else {
        (if cur.len() > 0 {
            seq![cur]
        } else {
            Seq::empty()
        }) + runs_from(s, k + 1, Seq::empty())
    }
}

/// The number a run of digits spells as a `u64`, or 0 when it does not fit.
pub open spec fn part_value(run: Seq<char>) -> u64 {
    if digits_value(run) <= u64::MAX {
        digits_value(run) as u64
    } else {
        0
    }
}

pub open spec fn part_values(runs: Seq<Seq<char>>) -> Seq<u64> {
    runs.map_values(|r: Seq<char>| part_value(r))
}

/// The numeric parts of a version: the first three runs of digits of the normalized text.
pub open spec fn version_parts(v: Seq<char>) -> Seq<u64> {
    let all = part_values(runs_from(normalize_version_spec(v), 0, Seq::empty()));
    if all.len() > 3 {
        all.take(3)
    } else {
        all
    }
}

fn run_value(run: &Vec<char>) -> (r: u64)
    requires
        all_digits(run@),
        run@.len() > 0,
    ensures
        r == part_value(run@),
{
    proof {
        assert(run@.skip(0) =~= run@);
    }
    match digits_at_most(run, 0, 0xffff_ffff_ffff_ffff) {
        Some(n) => n,
        None => 0,
    }
}

/// The numeric parts of a version.
pub fn parse_version(version: &str) -> (r: Vec<u64>)
    ensures
        r@ == version_parts(version@),
{
    let s = normalize_version(version);
    let ghost sv = s@;
    let mut out: Vec<u64> = Vec::new();
    let mut cur: Vec<char> = Vec::new();
    let mut k: usize = 0;
    while k < s.len()
        invariant
            sv == s@,
            0 <= k <= s@.len(),
            all_digits(cur@),
            part_values(runs_from(sv, 0, Seq::empty())) == out@ + part_values(
                runs_from(sv, k as int, cur@),
            ),
        decreases s@.len() - k,
    {
        if char_is_digit(s[k]) {
            let ghost before = cur@;
            cur.push(s[k]);
            proof {
                assert forall|i: int| 0 <= i < cur@.len() implies is_digit(#[trigger] cur@[i]) by {
                    if i < cur@.len() - 1 {
                        assert(cur@[i] == before[i]);
                    }
                }
            }
        } else {
            let ghost old_out = out@;
            let ghost old_cur = cur@;
            if cur.len() > 0 {
                let v = run_value(&cur);
                out.push(v);
                proof {
                    assert(part_values(seq![old_cur] + runs_from(sv, k + 1, Seq::empty()))
                        =~= seq![v] + part_values(runs_from(sv, k + 1, Seq::empty())));
                    assert(out@ =~= old_out + seq![v]);
                }
            } else {
                proof {
                    assert(Seq::<Seq<char>>::empty() + runs_from(sv, k + 1, Seq::empty()) =~= runs_from(
                        sv,
                        k + 1,
                        Seq::empty(),
                    ));
                }
            }
            cur = Vec::new();
            proof {
                assert(cur@ =~= Seq::<char>::empty());
            }
        }
        k = k + 1;
    }
    if cur.len() > 0 {
        let ghost old_out = out@;
        let v = run_value(&cur);
        out.push(v);
        proof {
            assert(part_values(seq![cur@]) =~= seq![v]);
        }
    } else {
        proof {
            assert(part_values(Seq::<Seq<char>>::empty()) =~= Seq::<u64>::empty());
            assert(out@ + Seq::<u64>::empty() =~= out@);
        }
    }
    if out.len() > 3 {
        out.truncate(3);
    }
    out
}

/// `a` comes before `b` in the order of `Vec<u64>`: at the first difference, or as a proper
/// prefix.
pub open spec fn lex_lt(a: Seq<u64>, b: Seq<u64>) -> bool
    decreases a.len(),
{
    if a.len() == 0 {
        b.len() > 0
    } else if b.len() == 0 {
        false
    } else if a[0] != b[0] {
        a[0] < b[0]
    } else {
        lex_lt(a.drop_first(), b.drop_first())
    }
}

pub fn lex_lt_exec(a: &Vec<u64>, b: &Vec<u64>) -> (r: bool)
    ensures
        r == lex_lt(a@, b@),
{
    let mut i: usize = 0;
    proof {
        assert(a@.skip(0) =~= a@);
        assert(b@.skip(0) =~= b@);
    }
    loop
        invariant
            0 <= i <= a@.len(),
            i <= b@.len(),
            lex_lt(a@, b@) == lex_lt(a@.skip(i as int), b@.skip(i as int)),
        decreases a@.len() - i,
    {
        if i == a.len() {
            return i < b.len();
        }
        if i == b.len() {
            return false;
        }
        if a[i] != b[i] {
            return a[i] < b[i];
        }
        proof {
            assert(a@.skip(i as int).drop_first() =~= a@.skip(i + 1));
            assert(b@.skip(i as int).drop_first() =~= b@.skip(i + 1));
        }
        i = i + 1;
    }
}

/// `candidate` is a later version than `current`.
pub open spec fn version_greater_spec(candidate: Seq<char>, current: Seq<char>) -> bool {
    lex_lt(version_parts(current), version_parts(candidate))
}

pub fn version_greater(candidate: &str, current: &str) -> (r: bool)
    ensures
        r == version_greater_spec(candidate@, current@),
{
    let a = parse_version(candidate);
    let b = parse_version(current);
    lex_lt_exec(&b, &a)
}

pub proof fn lemma_lex_lt_irreflexive(a: Seq<u64>)
    ensures
        !lex_lt(a, a),
    decreases a.len(),
{
    if a.len() > 0 {
        lemma_lex_lt_irreflexive(a.drop_first());
    }
}

pub proof fn lemma_lex_lt_transitive(a: Seq<u64>, b: Seq<u64>, c: Seq<u64>)
    requires
        lex_lt(a, b),
        lex_lt(b, c),
    ensures
        lex_lt(a, c),
    decreases a.len(),
{
    if a.len() > 0 && b.len() > 0 && c.len() > 0 && a[0] == b[0] && b[0] == c[0] {
        lemma_lex_lt_transitive(a.drop_first(), b.drop_first(), c.drop_first());
    }
}

/// A version is never later than itself.
pub proof fn lemma_version_greater_irreflexive(v: Seq<char>)
    ensures
        !version_greater_spec(v, v),
{
    lemma_lex_lt_irreflexive(version_parts(v));
}

/// Of two versions, at most one is later than the other.
pub proof fn lemma_version_greater_asymmetric(a: Seq<char>, b: Seq<char>)
    requires
        version_greater_spec(a, b),
    ensures
        !version_greater_spec(b, a),
{
    if version_greater_spec(b, a) {
        lemma_lex_lt_transitive(version_parts(b), version_parts(a), version_parts(b));
        lemma_lex_lt_irreflexive(version_parts(b));
    }
}

/// Being a later version is transitive.
pub proof fn lemma_version_greater_transitive(a: Seq<char>, b: Seq<char>, c: Seq<char>)
    requires
        version_greater_spec(a, b),
        version_greater_spec(b, c),
    ensures
        version_greater_spec(a, c),
{
    lemma_lex_lt_transitive(version_parts(c), version_parts(b), version_parts(a));
}



/// What an update check found.
#[derive(Debug, Clone, PartialEq, Eq)]
pub enum UpdateCheckStatus {
    UpToDate,
    UpdateAvailable { latest_version: String },
    Unknown,
    Disabled,
}

pub enum SpecUpdateStatus {
    UpToDate,
    UpdateAvailable(Seq<char>),
    Unknown,
    Disabled,
}

impl View for UpdateCheckStatus {
    type V = SpecUpdateStatus;

    open spec fn view(&self) -> SpecUpdateStatus {
        match self {
            UpdateCheckStatus::UpToDate => SpecUpdateStatus::UpToDate,
            UpdateCheckStatus::UpdateAvailable { latest_version } => SpecUpdateStatus::UpdateAvailable(
                latest_version@,
            ),
            UpdateCheckStatus::Unknown => SpecUpdateStatus::Unknown,
            UpdateCheckStatus::Disabled => SpecUpdateStatus::Disabled,
        }
    }
}

/// The status for the latest released version, if it is known: an update is available exactly
/// when that version is greater than this build's.
pub open spec fn status_spec(latest: Option<Seq<char>>) -> SpecUpdateStatus {
    match latest {
        None => SpecUpdateStatus::Unknown,
        Some(l) => if version_greater_spec(l, current_version()) {
            SpecUpdateStatus::UpdateAvailable(l)
        } else {
            SpecUpdateStatus::UpToDate
        },
    }
}

pub open spec fn opt_str(o: Option<&str>) -> Option<Seq<char>> {
    match o {
        Some(s) => Some(s@),
        None => None,
    }
}

/// The status for the latest released version, if it is known.
pub fn status_for_latest(latest_version: Option<&str>) -> (r: UpdateCheckStatus)
    ensures
        r@ == status_spec(opt_str(latest_version)),
{
    match latest_version {
        None => UpdateCheckStatus::Unknown,
        Some(l) => {
            let current = current_version_exec();
            if version_greater(l, current.as_str()) {
                UpdateCheckStatus::UpdateAvailable { latest_version: l.to_owned() }
            } else {
                UpdateCheckStatus::UpToDate
            }
        },
    }
}

/// The outcome of `tali update`'s check: disabled checks say so; otherwise the status for the
/// latest version fetched, unknown when the fetch failed.
pub fn check_now(disabled: bool, fetched_latest: Option<&str>) -> (r: UpdateCheckStatus)
    ensures
        disabled ==> r@ == SpecUpdateStatus::Disabled,
        !disabled ==> r@ == status_spec(opt_str(fetched_latest)),
{
    if disabled {
        UpdateCheckStatus::Disabled
    } else {
        status_for_latest(fetched_latest)
    }
}

/// An environment flag is on when its value, in any case, is `1`, `true`, `yes` or `on`.
pub open spec fn flag_on(value: Seq<char>) -> bool {
    let v = crate::text::ascii_lowercase(value);
    v == "1"@ || v == "true"@ || v == "yes"@ || v == "on"@
}

fn same(a: &[char], lit: &str) -> (r: bool)
    ensures
        r == (a@ == lit@),
{
    chars_eq(a, &chars_of(lit))
}

/// Whether an environment flag with this value (`None` when it is not set) is on.
pub fn flag_enabled(value: Option<&str>) -> (r: bool)
    ensures
        r == match value {
            Some(v) => flag_on(v@),
            None => false,
        },
{
    match value {
        None => false,
        Some(v) => {
            let l = crate::text::ascii_lowercase_exec(&chars_of(v));
            same(&l, "1") || same(&l, "true") || same(&l, "yes") || same(&l, "on")
        },
    }
}

/// Why the release metadata gave no version.
#[derive(Debug, Clone, Copy, PartialEq, Eq)]
pub enum LatestVersionError {
    /// The metadata looked like JSON and did not parse.
    Json,
    /// The metadata was empty.
    Empty,
}

/// The fields of a JSON object as pairs of key and, for a string value, the string.
pub open spec fn fields_view(v: Seq<(String, Option<String>)>) -> Seq<(Seq<char>, Option<Seq<char>>)> {
    v.map_values(|f: (String, Option<String>)| (f.0@, opt_view(f.1)))
}

/// The fields of the top-level object of a JSON text, by `serde_json`: `None` when the text is
/// not JSON, `Some(None)` when its value is not an object, else each key with its value when
/// that is a string. The order and the parse itself are `serde_json`'s.
pub uninterp spec fn json_object_strings(text: Seq<char>) -> Option<Option<Seq<(Seq<char>, Option<Seq<char>>)>>>;

#[verifier::external_type_specification]
#[verifier::external_body]
pub struct ExJsonError(serde_json::Error);

/// `serde_json::from_str` into a `serde_json::Value`: an error when the text is not JSON; for
/// an object, its fields, each with its value when that is a string; `None` for any other
/// value. Which texts parse, and the fields they give, is named (`json_object_strings`), not
/// stated.
#[verifier::external_body]
fn parse_json_object(text: &str) -> (r: Result<Option<Vec<(String, Option<String>)>>, serde_json::Error>)
    ensures
        match r {
            Ok(None) => json_object_strings(text@) == Some(None::<Seq<(Seq<char>, Option<Seq<char>>)>>),
            Ok(Some(fields)) => json_object_strings(text@) == Some(Some(fields_view(fields@))),
            Err(_) => json_object_strings(text@) is None,
        },
{
    match serde_json::from_str::<serde_json::Value>(text) {
        Ok(serde_json::Value::Object(map)) => Ok(Some(map.into_iter().map(|(key, value)| (key, match value {
            serde_json::Value::String(s) => Some(s),
            _ => None,
        })).collect())),
        Ok(_) => Ok(None),
        Err(e) => Err(e),
    }
}

/// The string value of the first field named `tag_name`.
pub open spec fn tag_from(fields: Seq<(Seq<char>, Option<Seq<char>>)>) -> Option<Seq<char>>
    decreases fields.len(),
{
    if fields.len() == 0 {
        None
    } else if fields[0].0 == "tag_name"@ {
        fields[0].1
    } else {
        tag_from(fields.drop_first())
    }
}

/// The text before the first newline.
pub open spec fn before_newline(t: Seq<char>) -> Seq<char> {
    match find_from(t, seq!['\n'], 0) {
        Some(i) => t.take(i),
        None => t,
    }
}

/// The version on the first line of a trimmed text.
pub open spec fn first_line_version(t: Seq<char>) -> Result<Seq<char>, LatestVersionError> {
    let line = trim(before_newline(t));
    if line.len() == 0 {
        Err(LatestVersionError::Empty)
    } else {
        Ok(normalize_version_spec(line))
    }
}

/// The latest version in release metadata, given what the JSON parse of the trimmed text gave
/// (`json`, as `json_object_strings` gives it): for a text starting with `{`, a parse error is
/// an error and a string `tag_name` is the version; otherwise, and when there is no such tag,
/// the first line is the version. A version loses its leading `v`s.
pub open spec fn latest_version_spec(
    output: Seq<char>,
    json: Option<Option<Seq<(Seq<char>, Option<Seq<char>>)>>>,
) -> Result<Seq<char>, LatestVersionError> {
    let t = trim(output);
    if t.len() > 0 && t[0] == '{' {
        match json {
            None => Err(LatestVersionError::Json),
            Some(Some(fields)) => match tag_from(fields) {
                Some(tag) => Ok(normalize_version_spec(tag)),
                None => first_line_version(t),
            },
            Some(None) => first_line_version(t),
        }
    } else {
        first_line_version(t)
    }
}

pub open spec fn json_view(
    json: Option<Option<Vec<(String, Option<String>)>>>,
) -> Option<Option<Seq<(Seq<char>, Option<Seq<char>>)>>> {
    match json {
        None => None,
        Some(None) => Some(None),
        Some(Some(f)) => Some(Some(fields_view(f@))),
    }
}

fn tag_from_exec(fields: &Vec<(String, Option<String>)>) -> (r: Option<Vec<char>>)
    ensures
        match r {
            Some(t) => tag_from(fields_view(fields@)) == Some(t@),
            None => tag_from(fields_view(fields@)) is None,
        },
{
    let ghost fv = fields_view(fields@);
    proof {
        assert(fv.skip(0) =~= fv);
    }
    let mut i: usize = 0;
    while i < fields.len()
        invariant
            0 <= i <= fields@.len(),
            fv == fields_view(fields@),
            tag_from(fv) == tag_from(fv.skip(i as int)),
        decreases fields@.len() - i,
    {
        proof {
            assert(fv.skip(i as int).drop_first() =~= fv.skip(i + 1));
        }
        if same(&chars_of(fields[i].0.as_str()), "tag_name") {
            return match &fields[i].1 {
                Some(t) => Some(chars_of(t.as_str())),
                None => None,
            };
        }
        i = i + 1;
    }
    None
}

fn first_line_version_exec(t: &Vec<char>) -> (r: Result<Vec<char>, LatestVersionError>)
    ensures
        match r {
            Ok(v) => first_line_version(t@) == Ok::<Seq<char>, LatestVersionError>(v@),
            Err(e) => first_line_version(t@) == Err::<Seq<char>, LatestVersionError>(e),
        },
{
    let nl = vec!['\n'];
    proof {
        crate::text::lemma_find_from(t@, nl@, 0);
    }
    let head = match find_from_exec(t, &nl, 0) {
        Some(i) => slice_copy(t, 0, i),
        None => slice_copy(t, 0, t.len()),
    };
    proof {
        assert(nl@ =~= seq!['\n']);
        assert(t@.subrange(0, t@.len() as int) =~= t@);
    }
    let line = trim_exec(&head);
    if line.len() == 0 {
        Err(LatestVersionError::Empty)
    } else {
        Ok(normalize_version(string_of(&line).as_str()))
    }
}

/// The latest version in release metadata, given what the JSON parse of the trimmed metadata
/// gave (`None` for a parse error; used only when the metadata starts with `{`).
pub fn latest_version_from(
    output: &str,
    json: Option<Option<Vec<(String, Option<String>)>>>,
) -> (r: Result<String, LatestVersionError>)
    ensures
        match r {
            Ok(v) => latest_version_spec(output@, json_view(json)) == Ok::<Seq<char>, LatestVersionError>(v@),
            Err(e) => latest_version_spec(output@, json_view(json)) == Err::<Seq<char>, LatestVersionError>(e),
        },
{
    let t = trim_exec(&chars_of(output));
    if t.len() > 0 && t[0] == '{' {
        match &json {
            None => {
                return Err(LatestVersionError::Json);
            },
            Some(Some(fields)) => {
                match tag_from_exec(fields) {
                    Some(tag) => {
                        return Ok(string_of(&normalize_version(string_of(&tag).as_str())));
                    },
                    None => {},
                }
            },
            Some(None) => {},
        }
    }
    match first_line_version_exec(&t) {
        Ok(v) => Ok(string_of(&v)),
        Err(e) => Err(e),
    }
}

/// The latest version in release metadata, as fetched: a JSON object's `tag_name`, or else the
/// first line, without leading `v`s.
pub fn parse_latest_version(output: &str) -> (r: Result<String, LatestVersionError>)
    ensures
        match r {
            Ok(v) => latest_version_spec(output@, json_object_strings(trim(output@))) == Ok::<
                Seq<char>,
                LatestVersionError,
            >(v@),
            Err(e) => latest_version_spec(output@, json_object_strings(trim(output@))) == Err::<
                Seq<char>,
                LatestVersionError,
            >(e),
        },
{
    let t = trim_exec(&chars_of(output));
    if t.len() > 0 && t[0] == '{' {
        let trimmed = string_of(&t);
        let json = match parse_json_object(trimmed.as_str()) {
            Ok(fields) => Some(fields),
            Err(_) => None,
        };
        latest_version_from(output, json)
    } else {
        latest_version_from(output, None)
    }
}

/// Hours between two update checks, and between two notices of the same version.
pub open spec fn check_interval_secs() -> int {
    86400int
}

/// A cached check younger than the interval is used as it is.
pub fn cache_is_fresh(elapsed_secs: i64) -> (r: bool)
    ensures
        r == (elapsed_secs < check_interval_secs()),
{
    elapsed_secs < 86400
}

/// What the update cache records: when the last check ran and what it found, and which
/// version was last announced, and when.
#[derive(Debug, Clone, PartialEq, Eq)]
pub struct UpdateCacheRecord {
    pub checked_at: Timestamp,
    pub latest_version: Option<String>,
    pub notified_at: Option<Timestamp>,
    pub notified_version: Option<String>,
}

pub struct SpecCacheRecord {
    pub checked_at: Timestamp,
    pub latest_version: Option<Seq<char>>,
    pub notified_at: Option<Timestamp>,
    pub notified_version: Option<Seq<char>>,
}

impl View for UpdateCacheRecord {
    type V = SpecCacheRecord;

    open spec fn view(&self) -> SpecCacheRecord {
        SpecCacheRecord {
            checked_at: self.checked_at,
            latest_version: opt_view(self.latest_version),
            notified_at: self.notified_at,
            notified_version: opt_view(self.notified_version),
        }
    }
}

pub open spec fn cache_view(c: Option<UpdateCacheRecord>) -> Option<SpecCacheRecord> {
    match c {
        Some(r) => Some(r@),
        None => None,
    }
}

/// The time from `then` to `now`, in nanoseconds.
pub open spec fn elapsed_nanos(now: Timestamp, then: Timestamp) -> int {
    (now.secs - then.secs) * 1_000_000_000 + now.nanos - then.nanos
}

/// The interval in nanoseconds.
pub open spec fn interval_nanos() -> int {
    check_interval_secs() * 1_000_000_000
}

/// The record a check writes at `now`: what it found, and the notice of the record before it.
pub open spec fn after_check(previous: Option<SpecCacheRecord>, now: Timestamp, latest: Option<Seq<char>>) -> SpecCacheRecord {
    SpecCacheRecord {
        checked_at: now,
        latest_version: latest,
        notified_at: match previous {
            Some(p) => p.notified_at,
            None => None,
        },
        notified_version: match previous {
            Some(p) => p.notified_version,
            None => None,
        },
    }
}

/// The record after `version` is announced at `now`; without a record nothing is kept.
pub open spec fn after_notice(cache: Option<SpecCacheRecord>, now: Timestamp, version: Seq<char>) -> Option<
    SpecCacheRecord,
> {
    match cache {
        Some(c) => Some(
            SpecCacheRecord { notified_at: Some(now), notified_version: Some(version), ..c },
        ),
        None => None,
    }
}

/// Whether to announce `latest` at `now`: always, unless the record says that this very
/// version was announced less than the interval ago.
pub open spec fn notify_spec(cache: Option<SpecCacheRecord>, now: Timestamp, latest: Seq<char>) -> bool {
    match cache {
        None => true,
        Some(c) => match c.notified_version {
            None => true,
            Some(v) => if v != latest {
                true
            } else {
                match c.notified_at {
                    None => true,
                    Some(t) => elapsed_nanos(now, t) >= interval_nanos(),
                }
            },
        },
    }
}

/// The record that a check at `now` writes, keeping the notice of `previous`.
pub fn record_check(previous: Option<UpdateCacheRecord>, now: Timestamp, latest_version: Option<String>) -> (r:
    UpdateCacheRecord)
    ensures
        r@ == after_check(cache_view(previous), now, opt_view(latest_version)),
{
    match previous {
        Some(p) => UpdateCacheRecord {
            checked_at: now,
            latest_version,
            notified_at: p.notified_at,
            notified_version: p.notified_version,
        },
        None => UpdateCacheRecord { checked_at: now, latest_version, notified_at: None, notified_version: None },
    }
}

/// The record after `latest_version` is announced at `now`; `None` when there is no record.
pub fn record_notice(cache: Option<UpdateCacheRecord>, now: Timestamp, latest_version: &str) -> (r: Option<
    UpdateCacheRecord,
>)
    ensures
        cache_view(r) == after_notice(cache_view(cache), now, latest_version@),
{
    match cache {
        Some(c) => Some(
            UpdateCacheRecord {
                checked_at: c.checked_at,
                latest_version: c.latest_version,
                notified_at: Some(now),
                notified_version: Some(latest_version.to_owned()),
            },
        ),
        None => None,
    }
}

/// Whether to tell the user about `latest_version` at `now`, given the update cache: always,
/// unless the cache says that this very version was announced less than the interval ago.
pub fn should_notify(cache: Option<&UpdateCacheRecord>, now: Timestamp, latest_version: &str) -> (r: bool)
    ensures
        r == notify_spec(
            match cache {
                Some(c) => Some(c@),
                None => None,
            },
            now,
            latest_version@,
        ),
{
    let c = match cache {
        None => {
            return true;
        },
        Some(c) => c,
    };
    match &c.notified_version {
        None => {
            return true;
        },
        Some(v) => {
            if !chars_eq(&chars_of(v.as_str()), &chars_of(latest_version)) {
                return true;
            }
        },
    }
    match c.notified_at {
        None => true,
        Some(t) => {
            let elapsed: i128 = (now.secs as i128 - t.secs as i128) * 1_000_000_000 + now.nanos as i128
                - t.nanos as i128;
            elapsed >= 86_400_000_000_000
        },
    }
}

/// The record `start` after the checks `checks` (each its time and what it found), in turn.
pub open spec fn checks_after(start: SpecCacheRecord, checks: Seq<(Timestamp, Option<Seq<char>>)>) -> SpecCacheRecord
    decreases checks.len(),
{
    if checks.len() == 0 {
        start
    } else {
        let (t, l) = checks.last();
        after_check(Some(checks_after(start, checks.drop_last())), t, l)
    }
}

/// An announced version is not announced again within the interval, also when update checks
/// have rewritten the record in between; another version is announced; and without a record
/// nothing is remembered, so the version is announced again.
pub proof fn lemma_notice_not_repeated(
    cache: SpecCacheRecord,
    noticed: Timestamp,
    checks: Seq<(Timestamp, Option<Seq<char>>)>,
    now: Timestamp,
    version: Seq<char>,
    other: Seq<char>,
)
    requires
        elapsed_nanos(now, noticed) < interval_nanos(),
        other != version,
    ensures
        after_notice(Some(cache), noticed, version) is Some,
        ({
            let marked = checks_after(after_notice(Some(cache), noticed, version)->0, checks);
            &&& !notify_spec(Some(marked), now, version)
            &&& notify_spec(Some(marked), now, other)
        }),
        notify_spec(after_notice(None, noticed, version), now, version),
    decreases checks.len(),
{
    if checks.len() > 0 {
        lemma_notice_not_repeated(cache, noticed, checks.drop_last(), now, version, other);
    }
}

/// After `v` is announced, the interval has to pass before `v` is announced again.
pub proof fn lemma_notice_returns_after_interval(cache: SpecCacheRecord, noticed: Timestamp, now: Timestamp, version: Seq<char>)
    requires
        elapsed_nanos(now, noticed) >= interval_nanos(),
    ensures
        notify_spec(after_notice(Some(cache), noticed, version), now, version),
{
}

/// The address of the latest release's metadata for a GitHub repository `owner/name`.
pub fn release_metadata_url(repo: &str) -> (r: String)
    ensures
        r@ == "https://api.github.com/repos/"@ + repo@ + "/releases/latest"@,
{
    let a = cat("https://api.github.com/repos/", repo);
    cat(a.as_str(), "/releases/latest")
}

/// The lines that announce an available update.
pub fn update_notice_lines(latest_version: &str) -> (r: Vec<String>)
    ensures
        r@.len() == 3,
        r@[0]@ == "Update available: tali "@ + latest_version@,
        r@[1]@ == "Run:"@,
        r@[2]@ == "tali update"@,
{
    let mut out: Vec<String> = Vec::new();
    out.push(cat("Update available: tali ", latest_version));
    out.push("Run:".to_owned());
    out.push("tali update".to_owned());
    out
}

/// The lines `tali update` prints for a status.
pub fn manual_status_lines(status: &UpdateCheckStatus) -> (r: Vec<String>)
    ensures
        r@.map_values(|s: String| s@) == match status@ {
            SpecUpdateStatus::UpdateAvailable(v) => seq!["Update available: tali "@ + v, "Run:"@, "tali update"@],
            SpecUpdateStatus::UpToDate => seq!["Tali is up to date."@],
            SpecUpdateStatus::Unknown => seq!["Could not check for updates."@],
            SpecUpdateStatus::Disabled => seq!["Update checks are disabled."@],
        },
{
    let mut out: Vec<String> = Vec::new();
    match status {
        UpdateCheckStatus::UpdateAvailable { latest_version } => {
            out = update_notice_lines(latest_version.as_str());
        },
        UpdateCheckStatus::UpToDate => {
            out.push("Tali is up to date.".to_owned());
        },
        UpdateCheckStatus::Unknown => {
            out.push("Could not check for updates.".to_owned());
        },
        UpdateCheckStatus::Disabled => {
            out.push("Update checks are disabled.".to_owned());
        },
    }
    proof {
        assert(out@.map_values(|s: String| s@) =~= match status@ {
            SpecUpdateStatus::UpdateAvailable(v) => seq!["Update available: tali "@ + v, "Run:"@, "tali update"@],
            SpecUpdateStatus::UpToDate => seq!["Tali is up to date."@],
            SpecUpdateStatus::Unknown => seq!["Could not check for updates."@],
            SpecUpdateStatus::Disabled => seq!["Update checks are disabled."@],
        });
    }
    out
}

} // verus!

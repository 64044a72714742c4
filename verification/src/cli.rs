//! The command line: the shortcut `tali <manifest>`, values given for inputs, and which run
//! the logs command shows.
use vstd::prelude::*;
use crate::logs::RunStatus;
use crate::manifest::{blank, is_blank};
use crate::text::{cat, chars_eq, chars_of, find_from, find_from_exec, slice_copy, string_of};

verus! {

/// The words that name a command or a flag of `tali` itself.
pub open spec fn known_commands() -> Seq<Seq<char>> {
    seq![
        "add"@,
        "list"@,
        "run"@,
        "inspect"@,
        "logs"@,
        "cleanup"@,
        "skill"@,
        "update"@,
        "doctor"@,
        "self-test"@,
        "completions"@,
        "help"@,
        "--help"@,
        "-h"@,
        "--version"@,
        "-V"@,
    ]
}

fn known_commands_exec() -> (r: Vec<String>)
    ensures
        r@.map_values(|s: String| s@) == known_commands(),
{
    let words = vec![
        "add", "list", "run", "inspect", "logs", "cleanup", "skill", "update", "doctor", "self-test",
        "completions", "help", "--help", "-h", "--version", "-V",
    ];
    let mut out: Vec<String> = Vec::new();
    let mut i: usize = 0;
    while i < words.len()
        invariant
            0 <= i <= words@.len(),
            words@ == seq![
                "add", "list", "run", "inspect", "logs", "cleanup", "skill", "update", "doctor",
                "self-test", "completions", "help", "--help", "-h", "--version", "-V",
            ],
            out@.map_values(|s: String| s@) == words@.take(i as int).map_values(|w: &str| w@),
        decreases words@.len() - i,
    {
        let ghost before = out@.map_values(|s: String| s@);
        out.push(words[i].to_owned());
        proof {
            assert(out@.map_values(|s: String| s@) =~= before.push(words@[i as int]@));
            assert(words@.take(i + 1).map_values(|w: &str| w@) =~= words@.take(i as int).map_values(
                |w: &str| w@,
            ).push(words@[i as int]@));
        }
        i = i + 1;
    }
    proof {
        assert(words@.take(words@.len() as int) =~= words@);
        assert(words@.map_values(|w: &str| w@) =~= known_commands());
    }
    out
}

/// `tali <id-or-name> ...` stands for `tali run <id-or-name> ...`: the first argument is neither
/// a flag nor a known command.
pub open spec fn rewrite_spec(args: Seq<Seq<char>>) -> Seq<Seq<char>> {
    if args.len() > 1 && !(args[1].len() > 0 && args[1][0] == '-') && !known_commands().contains(args[1]) {
        seq![args[0], "run"@] + args.skip(1)
    } else {
        args
    }
}

/// The arguments with the shortcut `tali <id-or-name>` written out as `tali run <id-or-name>`.
pub fn rewrite_shortcut_args(args: Vec<String>) -> (r: Vec<String>)
    ensures
        r@.map_values(|s: String| s@) == rewrite_spec(args@.map_values(|s: String| s@)),
{
    let ghost av = args@.map_values(|s: String| s@);
    if args.len() <= 1 {
        return args;
    }
    let first = chars_of(args[1].as_str());
    if first.len() > 0 && first[0] == '-' {
        return args;
    }
    let known = known_commands_exec();
    let ghost kv = known@.map_values(|s: String| s@);
    let mut i: usize = 0;
    while i < known.len()
        invariant
            0 <= i <= known@.len(),
            kv == known@.map_values(|s: String| s@),
            kv == known_commands(),
            first@ == av[1],
            av == args@.map_values(|s: String| s@),
            args@.len() > 1,
            forall|k: int| 0 <= k < i ==> #[trigger] kv[k] != av[1],
        decreases known@.len() - i,
    {
        if chars_eq(&chars_of(known[i].as_str()), &first) {
            proof {
                assert(kv[i as int] == av[1]);
                assert(known_commands().contains(av[1]));
            }
            return args;
        }
        i = i + 1;
    }
    let mut out: Vec<String> = Vec::new();
    out.push(args[0].as_str().to_owned());
    out.push("run".to_owned());
    let mut k: usize = 1;
    while k < args.len()
        invariant
            1 <= k <= args@.len(),
            av == args@.map_values(|s: String| s@),
            out@.map_values(|s: String| s@) == seq![av[0], "run"@] + av.subrange(1, k as int),
        decreases args@.len() - k,
    {
        let ghost before = out@.map_values(|s: String| s@);
        out.push(args[k].as_str().to_owned());
        proof {
            assert(out@.map_values(|s: String| s@) =~= before.push(av[k as int]));
            assert(seq![av[0], "run"@] + av.subrange(1, k + 1) =~= (seq![av[0], "run"@] + av.subrange(1, k as int)).push(av[k as int]));
        }
        k = k + 1;
    }
    proof {
        assert(!known_commands().contains(av[1])) by {
            if known_commands().contains(av[1]) {
                let j = choose|j: int| 0 <= j < known_commands().len() && known_commands()[j] == av[1];
                assert(kv[j] == av[1]);
            }
        }
        assert(av.subrange(1, args@.len() as int) =~= av.skip(1));
    }
    out
}

/// Why a value given on the command line for an input was refused.
#[derive(Debug, Clone, PartialEq, Eq)]
pub enum InputArgError {
    /// `--input` without `=`.
    InputSyntax,
    /// An empty key.
    EmptyKey,
    /// `--input-env` without `=`.
    EnvSyntax,
    /// `--input-env` with an empty variable name.
    EmptyEnvName,
    /// The named environment variable is not set.
    EnvNotSet(String),
    /// The key was given twice.
    Duplicate(String),
}

pub enum SpecInputArgError {
    InputSyntax,
    EmptyKey,
    EnvSyntax,
    EmptyEnvName,
    EnvNotSet(Seq<char>),
    Duplicate(Seq<char>),
}

impl View for InputArgError {
    type V = SpecInputArgError;

    open spec fn view(&self) -> SpecInputArgError {
        match self {
            InputArgError::InputSyntax => SpecInputArgError::InputSyntax,
            InputArgError::EmptyKey => SpecInputArgError::EmptyKey,
            InputArgError::EnvSyntax => SpecInputArgError::EnvSyntax,
            InputArgError::EmptyEnvName => SpecInputArgError::EmptyEnvName,
            InputArgError::EnvNotSet(n) => SpecInputArgError::EnvNotSet(n@),
            InputArgError::Duplicate(k) => SpecInputArgError::Duplicate(k@),
        }
    }
}

/// `s` split at its first `=`, as `str::split_once` does it.
pub open spec fn split_eq(s: Seq<char>) -> Option<(Seq<char>, Seq<char>)> {
    match find_from(s, seq!['='], 0) {
        Some(i) => Some((s.take(i), s.skip(i + 1))),
        None => None,
    }
}

fn split_eq_exec(s: &str) -> (r: Option<(String, String)>)
    ensures
        match split_eq(s@) {
            Some((a, b)) => r matches Some((x, y)) && x@ == a && y@ == b,
            None => r is None,
        },
{
    let v = chars_of(s);
    let eq = vec!['='];
    proof {
        assert(eq@ =~= seq!['=']);
        crate::text::lemma_find_from(v@, eq@, 0);
    }
    match find_from_exec(&v, &eq, 0) {
        Some(i) => {
            assert(crate::text::occurs_at(v@, eq@, i as int));
            assert(eq@.len() == 1);
            assert(i < v.len());
            let a = slice_copy(&v, 0, i);
            let j: usize = i + 1;
            let b = slice_copy(&v, j, v.len());
            proof {
                assert(a@ =~= v@.take(i as int));
                assert(b@ =~= v@.skip(i + 1));
            }
            Some((string_of(&a), string_of(&b)))
        },
        None => None,
    }
}

/// `key` is one of the keys of `m`.
pub open spec fn has_key(m: Seq<(Seq<char>, Seq<char>)>, key: Seq<char>) -> bool {
    exists|i: int| 0 <= i < m.len() && (#[trigger] m[i]).0 == key
}

/// Adding a key and value: a key given twice is refused.
pub open spec fn add_input(
    acc: Result<Seq<(Seq<char>, Seq<char>)>, SpecInputArgError>,
    key: Seq<char>,
    value: Seq<char>,
) -> Result<Seq<(Seq<char>, Seq<char>)>, SpecInputArgError> {
    match acc {
        Err(e) => Err(e),
        Ok(m) => if has_key(m, key) {
            Err(SpecInputArgError::Duplicate(key))
        } else {
            Ok(m.push((key, value)))
        },
    }
}

/// The values of the `--input KEY=VALUE` arguments, in order; the first problem is the error.
pub open spec fn parse_inline(inputs: Seq<Seq<char>>) -> Result<Seq<(Seq<char>, Seq<char>)>, SpecInputArgError>
    decreases inputs.len(),
{
    if inputs.len() == 0 {
        Ok(Seq::empty())
    } else {
        match parse_inline(inputs.drop_last()) {
            Err(e) => Err(e),
            Ok(m) => match split_eq(inputs.last()) {
                None => Err(SpecInputArgError::InputSyntax),
                Some((k, v)) => if blank(k) {
                    Err(SpecInputArgError::EmptyKey)
                } else {
                    add_input(Ok(m), k, v)
                },
            },
        }
    }
}

/// The values of the `--input-env KEY=ENV_VAR` arguments added after `start`, given the value
/// of each named variable (`None` when it is not set).
pub open spec fn parse_envs(
    start: Result<Seq<(Seq<char>, Seq<char>)>, SpecInputArgError>,
    envs: Seq<Seq<char>>,
    values: Seq<Option<Seq<char>>>,
) -> Result<Seq<(Seq<char>, Seq<char>)>, SpecInputArgError>
    decreases envs.len(),
{
    if envs.len() == 0 {
        start
    } else {
        match parse_envs(start, envs.drop_last(), values) {
            Err(e) => Err(e),
            Ok(m) => match split_eq(envs.last()) {
                None => Err(SpecInputArgError::EnvSyntax),
                Some((k, name)) => if blank(k) {
                    Err(SpecInputArgError::EmptyKey)
                } else if blank(name) {
                    Err(SpecInputArgError::EmptyEnvName)
                } else {
                    match values[envs.len() - 1] {
                        None => Err(SpecInputArgError::EnvNotSet(name)),
                        Some(v) => add_input(Ok(m), k, v),
                    }
                },
            },
        }
    }
}

pub open spec fn opt_strings(v: Seq<Option<String>>) -> Seq<Option<Seq<char>>> {
    v.map_values(|o: Option<String>| crate::manifest::opt_view(o))
}

pub open spec fn strs(v: Seq<String>) -> Seq<Seq<char>> {
    v.map_values(|s: String| s@)
}

/// Adds a value given for an input. A key given before is refused; its value is replaced, as a
/// map insert does.
pub fn insert_input(parsed: &mut Vec<(String, String)>, key: &str, value: String) -> (r: Result<(), InputArgError>)
    ensures
        has_key(crate::interpolate::pairs_view(old(parsed)@), key@) ==> (r matches Err(e) && e@
            == SpecInputArgError::Duplicate(key@)) && exists|i: int|
            0 <= i < old(parsed)@.len() && #[trigger] old(parsed)@[i].0@ == key@
                && crate::interpolate::pairs_view(final(parsed)@)
                == crate::interpolate::pairs_view(old(parsed)@).update(i, (key@, value@)),
        !has_key(crate::interpolate::pairs_view(old(parsed)@), key@) ==> r is Ok
            && crate::interpolate::pairs_view(final(parsed)@) == crate::interpolate::pairs_view(old(parsed)@).push(
            (key@, value@),
        ),
{
    let ghost pv = crate::interpolate::pairs_view(parsed@);
    let k = chars_of(key);
    let mut i: usize = 0;
    while i < parsed.len()
        invariant
            0 <= i <= parsed@.len(),
            pv == crate::interpolate::pairs_view(parsed@),
            parsed@ == old(parsed)@,
            k@ == key@,
            forall|j: int| 0 <= j < i ==> #[trigger] pv[j].0 != key@,
        decreases parsed@.len() - i,
    {
        if chars_eq(&chars_of(parsed[i].0.as_str()), &k) {
            let ghost vv = value@;
            parsed.set(i, (string_of(&k), value));
            proof {
                assert(crate::interpolate::pairs_view(parsed@) =~= pv.update(i as int, (key@, vv)));
                assert(pv[i as int].0 == key@);
                assert(has_key(pv, key@));
                assert(old(parsed)@[i as int].0@ == key@);
            }
            return Err(InputArgError::Duplicate(string_of(&k)));
        }
        i = i + 1;
    }
    let ghost vv = value@;
    parsed.push((string_of(&k), value));
    proof {
        assert(crate::interpolate::pairs_view(parsed@) =~= pv.push((key@, vv)));
        assert(!has_key(pv, key@));
    }
    Ok(())
}

pub open spec fn parsed_view(r: Result<Vec<(String, String)>, InputArgError>) -> Result<
    Seq<(Seq<char>, Seq<char>)>,
    SpecInputArgError,
> {
    match r {
        Ok(v) => Ok(crate::interpolate::pairs_view(v@)),
        Err(e) => Err(e@),
    }
}

/// The values given on the command line for inputs: the `--input KEY=VALUE` ones, then the
/// `--input-env KEY=ENV_VAR` ones, given the value of each named variable (`None` when it is
/// not set); a key may be given once.
pub fn parse_inputs(inputs: &[String], input_envs: &[String], env_values: &[Option<String>]) -> (r: Result<
    Vec<(String, String)>,
    InputArgError,
>)
    requires
        env_values@.len() == input_envs@.len(),
    ensures
        parsed_view(r) == parse_envs(parse_inline(strs(inputs@)), strs(input_envs@), opt_strings(env_values@)),
{
    let ghost iv = strs(inputs@);
    let ghost ev = strs(input_envs@);
    let ghost vv = opt_strings(env_values@);
    let mut parsed: Vec<(String, String)> = Vec::new();
    let mut i: usize = 0;
    proof {
        assert(iv.take(0) =~= Seq::<Seq<char>>::empty());
        assert(crate::interpolate::pairs_view(parsed@) =~= Seq::<(Seq<char>, Seq<char>)>::empty());
    }
    while i < inputs.len()
        invariant
            0 <= i <= inputs@.len(),
            iv == strs(inputs@),
            ev == strs(input_envs@),
            vv == opt_strings(env_values@),
            parse_inline(iv.take(i as int)) == Ok::<Seq<(Seq<char>, Seq<char>)>, SpecInputArgError>(
                crate::interpolate::pairs_view(parsed@),
            ),
        decreases inputs@.len() - i,
    {
        proof {
            assert(iv.take(i + 1).drop_last() =~= iv.take(i as int));
            assert(iv.take(i + 1).last() == inputs@[i as int]@);
        }
        match split_eq_exec(inputs[i].as_str()) {
            None => {
                proof {
                    lemma_inline_err(iv, i + 1);
                    lemma_envs_start_err(parse_inline(iv), ev, vv);
                }
                return Err(InputArgError::InputSyntax);
            },
            Some((k, v)) => {
                if is_blank(k.as_str()) {
                    proof {
                        lemma_inline_err(iv, i + 1);
                        lemma_envs_start_err(parse_inline(iv), ev, vv);
                    }
                    return Err(InputArgError::EmptyKey);
                }
                let res = insert_input(&mut parsed, k.as_str(), v);
                match res {
                    Err(e) => {
                        proof {
                            lemma_inline_err(iv, i + 1);
                            lemma_envs_start_err(parse_inline(iv), ev, vv);
                        }
                        return Err(e);
                    },
                    Ok(()) => {},
                }
            },
        }
        i = i + 1;
    }
    proof {
        assert(iv.take(inputs@.len() as int) =~= iv);
        assert(ev.take(0) =~= Seq::<Seq<char>>::empty());
    }
    let ghost start = parse_inline(iv);
    let mut j: usize = 0;
    while j < input_envs.len()
        invariant
            0 <= j <= input_envs@.len(),
            env_values@.len() == input_envs@.len(),
            ev == strs(input_envs@),
            vv == opt_strings(env_values@),
            start == parse_inline(iv),
            iv == strs(inputs@),
            parse_envs(start, ev.take(j as int), vv) == Ok::<Seq<(Seq<char>, Seq<char>)>, SpecInputArgError>(
                crate::interpolate::pairs_view(parsed@),
            ),
        decreases input_envs@.len() - j,
    {
        proof {
            assert(ev.take(j + 1).drop_last() =~= ev.take(j as int));
            assert(ev.take(j + 1).last() == input_envs@[j as int]@);
            assert(ev.take(j + 1).len() - 1 == j);
            assert(vv[j as int] == crate::manifest::opt_view(env_values@[j as int]));
        }
        match split_eq_exec(input_envs[j].as_str()) {
            None => {
                proof {
                    lemma_envs_err(start, ev, vv, j + 1);
                }
                return Err(InputArgError::EnvSyntax);
            },
            Some((k, name)) => {
                if is_blank(k.as_str()) {
                    proof {
                        lemma_envs_err(start, ev, vv, j + 1);
                    }
                    return Err(InputArgError::EmptyKey);
                }
                if is_blank(name.as_str()) {
                    proof {
                        lemma_envs_err(start, ev, vv, j + 1);
                    }
                    return Err(InputArgError::EmptyEnvName);
                }
                match &env_values[j] {
                    None => {
                        proof {
                            lemma_envs_err(start, ev, vv, j + 1);
                        }
                        return Err(InputArgError::EnvNotSet(name));
                    },
                    Some(value) => {
                        let res = insert_input(&mut parsed, k.as_str(), value.as_str().to_owned());
                        match res {
                            Err(e) => {
                                proof {
                                    lemma_envs_err(start, ev, vv, j + 1);
                                }
                                return Err(e);
                            },
                            Ok(()) => {},
                        }
                    },
                }
            },
        }
        j = j + 1;
    }
    proof {
        assert(ev.take(input_envs@.len() as int) =~= ev);
    }
    Ok(parsed)
}

proof fn lemma_envs_start_err(
    start: Result<Seq<(Seq<char>, Seq<char>)>, SpecInputArgError>,
    envs: Seq<Seq<char>>,
    values: Seq<Option<Seq<char>>>,
)
    requires
        start is Err,
    ensures
        parse_envs(start, envs, values) == start,
    decreases envs.len(),
{
    if envs.len() > 0 {
        lemma_envs_start_err(start, envs.drop_last(), values);
    }
}

proof fn lemma_inline_err(inputs: Seq<Seq<char>>, n: int)
    requires
        0 < n <= inputs.len(),
        parse_inline(inputs.take(n)) is Err,
    ensures
        parse_inline(inputs) == parse_inline(inputs.take(n)),
    decreases inputs.len() - n,
{
    if n < inputs.len() {
        assert(inputs.take(n + 1).drop_last() =~= inputs.take(n));
        lemma_inline_err(inputs, n + 1);
    } else {
        assert(inputs.take(n) =~= inputs);
    }
}

proof fn lemma_envs_err(
    start: Result<Seq<(Seq<char>, Seq<char>)>, SpecInputArgError>,
    envs: Seq<Seq<char>>,
    values: Seq<Option<Seq<char>>>,
    n: int,
)
    requires
        0 <= n <= envs.len(),
        parse_envs(start, envs.take(n), values) is Err,
    ensures
        parse_envs(start, envs, values) == parse_envs(start, envs.take(n), values),
    decreases envs.len() - n,
{
    if n < envs.len() {
        assert(envs.take(n + 1).drop_last() =~= envs.take(n));
        lemma_envs_err(start, envs, values, n + 1);
    } else {
        assert(envs.take(n) =~= envs);
    }
}

/// The run `tali logs` shows: a run ID as given; for `latest`, the run in progress when that is
/// preferred and there is one, else the latest run.
pub fn resolve_log_run_id(selector: &str, prefer_running: bool, latest_running: Option<&str>, latest: &str) -> (r: String)
    ensures
        selector@ != "latest"@ ==> r@ == selector@,
        selector@ == "latest"@ && prefer_running && latest_running is Some ==> r@ == latest_running.unwrap()@,
        selector@ == "latest"@ && !(prefer_running && latest_running is Some) ==> r@ == latest@,
{
    if !chars_eq(&chars_of(selector), &chars_of("latest")) {
        return selector.to_owned();
    }
    if prefer_running {
        match latest_running {
            Some(run_id) => {
                return run_id.to_owned();
            },
            None => {},
        }
    }
    latest.to_owned()
}

/// How `tali logs` prints a run.
#[derive(Debug, Clone, Copy, PartialEq, Eq)]
pub enum LogsFormat {
    Summary,
    Json,
    ForAi,
}

/// What `tali logs` was asked to do.
#[derive(Debug, Clone, PartialEq, Eq)]
pub enum LogsRequest {
    /// Follow the events of `latest` or a run ID as they come.
    Follow(String),
    /// Print `latest` or a run ID.
    Show(String, LogsFormat),
}

/// Why the arguments of `tali logs` were refused.
#[derive(Debug, Clone, Copy, PartialEq, Eq)]
pub enum LogsArgError {
    /// `follow` with `--json` or `--for-ai`.
    FollowWithFormat,
    /// `follow` without `latest` or a run ID.
    FollowTargetMissing,
    /// A second argument without `follow`.
    UnexpectedArgument,
}

/// What `tali logs <run_id> [follow_target]` asks for.
pub fn logs_request(run_id: &str, follow_target: Option<&str>, json: bool, for_ai: bool) -> (r: Result<
    LogsRequest,
    LogsArgError,
>)
    ensures
        run_id@ == "follow"@ && (json || for_ai) ==> r == Err::<LogsRequest, LogsArgError>(LogsArgError::FollowWithFormat),
        run_id@ == "follow"@ && !(json || for_ai) && follow_target is None ==> r == Err::<LogsRequest, LogsArgError>(
            LogsArgError::FollowTargetMissing,
        ),
        run_id@ == "follow"@ && !(json || for_ai) && follow_target is Some ==> (r matches Ok(LogsRequest::Follow(t))
            && t@ == follow_target.unwrap()@),
        run_id@ != "follow"@ && follow_target is Some ==> r == Err::<LogsRequest, LogsArgError>(
            LogsArgError::UnexpectedArgument,
        ),
        run_id@ != "follow"@ && follow_target is None ==> (r matches Ok(LogsRequest::Show(id, f)) && id@ == run_id@
            && f == (if json { LogsFormat::Json } else if for_ai { LogsFormat::ForAi } else { LogsFormat::Summary })),
{
    if chars_eq(&chars_of(run_id), &chars_of("follow")) {
        if json || for_ai {
            return Err(LogsArgError::FollowWithFormat);
        }
        return match follow_target {
            None => Err(LogsArgError::FollowTargetMissing),
            Some(t) => Ok(LogsRequest::Follow(t.to_owned())),
        };
    }
    if follow_target.is_some() {
        return Err(LogsArgError::UnexpectedArgument);
    }
    let format = if json {
        LogsFormat::Json
    } else if for_ai {
        LogsFormat::ForAi
    } else {
        LogsFormat::Summary
    };
    Ok(LogsRequest::Show(run_id.to_owned(), format))
}

/// A run that failed or was aborted makes `tali run` exit with status 1, unless it was a dry
/// run.
pub fn run_fails(status: RunStatus, dry_run: bool) -> (r: bool)
    ensures
        r == ((status == RunStatus::Failed || status == RunStatus::Aborted) && !dry_run),
{
    let bad = match status {
        RunStatus::Failed => true,
        RunStatus::Aborted => true,
        _ => false,
    };
    bad && !dry_run
}

/// The lines `tali add` prints for a new global manifest.
pub fn added_lines(id: &str, name: &str) -> (r: Vec<String>)
    ensures
        r@.map_values(|s: String| s@) == seq![
            "Added manifest:"@,
            "ID: "@ + id@,
            "Name: "@ + name@,
            "Run:"@,
            "tali "@ + id@,
        ],
{
    let mut out: Vec<String> = Vec::new();
    out.push("Added manifest:".to_owned());
    out.push(cat("ID: ", id));
    out.push(cat("Name: ", name));
    out.push("Run:".to_owned());
    out.push(cat("tali ", id));
    proof {
        assert(out@.map_values(|s: String| s@) =~= seq![
            "Added manifest:"@,
            "ID: "@ + id@,
            "Name: "@ + name@,
            "Run:"@,
            "tali "@ + id@,
        ]);
    }
    out
}

/// The line `tali list` prints for a global manifest: ID, name, creation time and description
/// (empty without one), two spaces apart.
pub fn list_line(id: &str, name: &str, created: &str, description: Option<&str>) -> (r: String)
    ensures
        r@ == id@ + "  "@ + name@ + "  "@ + created@ + "  "@ + match description {
            Some(d) => d@,
            None => Seq::<char>::empty(),
        },
{
    let a = cat(id, "  ");
    let b = cat(a.as_str(), name);
    let c = cat(b.as_str(), "  ");
    let d = cat(c.as_str(), created);
    let e = cat(d.as_str(), "  ");
    match description {
        Some(t) => cat(e.as_str(), t),
        None => {
            proof {
                assert(e@ + Seq::<char>::empty() =~= e@);
            }
            e
        },
    }
}

/// Writing out the shortcut is idempotent: arguments already written out stay as they are.
pub proof fn lemma_rewrite_idempotent(args: Seq<Seq<char>>)
    ensures
        rewrite_spec(rewrite_spec(args)) == rewrite_spec(args),
{
    let r = rewrite_spec(args);
    if r != args {
        assert(r[1] == "run"@);
        assert(known_commands()[2] == "run"@);
        assert(known_commands().contains(r[1]));
    }
}

/// A word that `tali` itself reads in first place: a command or a flag.
pub open spec fn own_word(w: Seq<char>) -> bool {
    ||| w == "add"@
    ||| w == "list"@
    ||| w == "run"@
    ||| w == "inspect"@
    ||| w == "logs"@
    ||| w == "cleanup"@
    ||| w == "skill"@
    ||| w == "update"@
    ||| w == "doctor"@
    ||| w == "self-test"@
    ||| w == "completions"@
    ||| w == "help"@
    ||| (w.len() > 0 && w[0] == '-')
}

/// The shortcut touches only manifest selectors: arguments whose first word is a command or a
/// flag of `tali` stay as they are, and any other first word `x` becomes `run x`, with every
/// argument kept in order.
pub proof fn lemma_shortcut_only_for_manifests(args: Seq<Seq<char>>)
    ensures
        args.len() <= 1 ==> rewrite_spec(args) == args,
        args.len() > 1 && own_word(args[1]) ==> rewrite_spec(args) == args,
        args.len() > 1 && !own_word(args[1]) ==> rewrite_spec(args).len() == args.len() + 1
            && rewrite_spec(args)[0] == args[0] && rewrite_spec(args)[1] == "run"@ && forall|i: int|
            1 <= i < args.len() ==> #[trigger] rewrite_spec(args)[i + 1] == args[i],
{
    let k = known_commands();
    assert(k[0] == "add"@ && k[1] == "list"@ && k[2] == "run"@ && k[3] == "inspect"@ && k[4] == "logs"@);
    assert(k[5] == "cleanup"@ && k[6] == "skill"@ && k[7] == "update"@ && k[8] == "doctor"@);
    assert(k[9] == "self-test"@ && k[10] == "completions"@ && k[11] == "help"@);
    reveal_strlit("--help");
    reveal_strlit("-h");
    reveal_strlit("--version");
    reveal_strlit("-V");
    assert(k[12] == "--help"@ && k[13] == "-h"@ && k[14] == "--version"@ && k[15] == "-V"@);
    if args.len() > 1 {
        let w = args[1];
        if own_word(w) {
            if !(w.len() > 0 && w[0] == '-') {
                if w == "add"@ { assert(k[0] == w); }
                else if w == "list"@ { assert(k[1] == w); }
                else if w == "run"@ { assert(k[2] == w); }
                else if w == "inspect"@ { assert(k[3] == w); }
                else if w == "logs"@ { assert(k[4] == w); }
                else if w == "cleanup"@ { assert(k[5] == w); }
                else if w == "skill"@ { assert(k[6] == w); }
                else if w == "update"@ { assert(k[7] == w); }
                else if w == "doctor"@ { assert(k[8] == w); }
                else if w == "self-test"@ { assert(k[9] == w); }
                else if w == "completions"@ { assert(k[10] == w); }
                else { assert(k[11] == w); }
                assert(k.contains(w));
            }
        } else {
            assert(!k.contains(w)) by {
                if k.contains(w) {
                    let j = choose|j: int| 0 <= j < k.len() && k[j] == w;
                    assert(k[j][0] == '-' || own_word(k[j]));
                }
            }
            let r = rewrite_spec(args);
            assert forall|i: int| 1 <= i < args.len() implies #[trigger] r[i + 1] == args[i] by {
                assert(r[i + 1] == args.skip(1)[i - 1]);
            }
        }
    }
}

/// No key occurs twice.
pub open spec fn keys_distinct(m: Seq<(Seq<char>, Seq<char>)>) -> bool {
    forall|i: int, j: int| 0 <= i < j < m.len() ==> (#[trigger] m[i]).0 != (#[trigger] m[j]).0
}

proof fn lemma_add_input_distinct(
    acc: Result<Seq<(Seq<char>, Seq<char>)>, SpecInputArgError>,
    key: Seq<char>,
    value: Seq<char>,
)
    requires
        acc matches Ok(m) ==> keys_distinct(m),
    ensures
        add_input(acc, key, value) matches Ok(m) ==> keys_distinct(m),
{
    if let Ok(m) = acc {
        if !has_key(m, key) {
            let n = m.push((key, value));
            assert forall|i: int, j: int| 0 <= i < j < n.len() implies (#[trigger] n[i]).0 != (#[trigger] n[j]).0 by {
                if j == m.len() {
                    assert(n[i] == m[i]);
                    if m[i].0 == key {
                        assert(has_key(m, key));
                    }
                } else {
                    assert(n[i] == m[i] && n[j] == m[j]);
                }
            }
        }
    }
}

proof fn lemma_inline_distinct(inputs: Seq<Seq<char>>)
    ensures
        parse_inline(inputs) matches Ok(m) ==> keys_distinct(m),
    decreases inputs.len(),
{
    if inputs.len() > 0 {
        lemma_inline_distinct(inputs.drop_last());
        match parse_inline(inputs.drop_last()) {
            Ok(m) => match split_eq(inputs.last()) {
                Some((k, v)) => {
                    lemma_add_input_distinct(Ok(m), k, v);
                },
                None => {},
            },
            Err(_) => {},
        }
    }
}

proof fn lemma_envs_distinct(
    start: Result<Seq<(Seq<char>, Seq<char>)>, SpecInputArgError>,
    envs: Seq<Seq<char>>,
    values: Seq<Option<Seq<char>>>,
)
    requires
        start matches Ok(m) ==> keys_distinct(m),
    ensures
        parse_envs(start, envs, values) matches Ok(m) ==> keys_distinct(m),
    decreases envs.len(),
{
    if envs.len() > 0 {
        lemma_envs_distinct(start, envs.drop_last(), values);
        match parse_envs(start, envs.drop_last(), values) {
            Ok(m) => match split_eq(envs.last()) {
                Some((k, name)) => match values[envs.len() - 1] {
                    Some(v) => {
                        lemma_add_input_distinct(Ok(m), k, v);
                    },
                    None => {},
                },
                None => {},
            },
            Err(_) => {},
        }
    }
}

/// A key is given at most once: the values accepted from `--input` and `--input-env` have
/// distinct keys.
pub proof fn lemma_parsed_inputs_distinct(
    inputs: Seq<Seq<char>>,
    envs: Seq<Seq<char>>,
    values: Seq<Option<Seq<char>>>,
)
    ensures
        parse_envs(parse_inline(inputs), envs, values) matches Ok(m) ==> keys_distinct(m),
{
    lemma_inline_distinct(inputs);
    lemma_envs_distinct(parse_inline(inputs), envs, values);
}

/// The environment variable each `--input-env KEY=ENV_VAR` argument names, when it has an `=`.
pub fn input_env_names(input_envs: &[String]) -> (r: Vec<Option<String>>)
    ensures
        r@.len() == input_envs@.len(),
        forall|i: int|
            0 <= i < input_envs@.len() ==> crate::manifest::opt_view(#[trigger] r@[i]) == match split_eq(
                input_envs@[i]@,
            ) {
                Some((_, name)) => Some(name),
                None => None,
            },
{
    let mut out: Vec<Option<String>> = Vec::new();
    let mut i: usize = 0;
    while i < input_envs.len()
        invariant
            0 <= i <= input_envs@.len(),
            out@.len() == i,
            forall|k: int|
                0 <= k < i ==> crate::manifest::opt_view(#[trigger] out@[k]) == match split_eq(input_envs@[k]@) {
                    Some((_, name)) => Some(name),
                    None => None,
                },
        decreases input_envs@.len() - i,
    {
        let name = match split_eq_exec(input_envs[i].as_str()) {
            Some((_, n)) => Some(n),
            None => None,
        };
        out.push(name);
        i = i + 1;
    }
    out
}

} // verus!

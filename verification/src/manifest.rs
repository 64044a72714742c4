//! Manifests: the inputs a run asks for and the steps it takes, and the checks a manifest
//! must pass before it runs.
use vstd::prelude::*;
use crate::condition::{validate_syntax, validate_syntax_spec, ConditionError, SpecConditionError};
use crate::text::{cat, char_is_alnum, char_is_alpha, chars_of, is_alnum, is_alpha, trim, trim_bounds};

verus! {

/// An input that a run asks the user for.
#[derive(Debug, Clone, PartialEq, Eq)]
pub struct InputSpec {
    pub name: String,
    pub prompt: String,
    pub secret: bool,
    pub required: bool,
    pub default: Option<String>,
}

/// One step of a manifest.  `env` and `replacements` are key/value pairs in key order.
#[derive(Debug, Clone, PartialEq, Eq)]
pub enum Step {
    Shell {
        name: Option<String>,
        when: Option<String>,
        cmd: String,
        cwd: Option<String>,
        env: Vec<(String, String)>,
    },
    WriteFile {
        name: Option<String>,
        when: Option<String>,
        path: String,
        content: String,
        overwrite: bool,
        create_dirs: bool,
    },
    Mkdir { name: Option<String>, when: Option<String>, path: String },
    Copy {
        name: Option<String>,
        when: Option<String>,
        from: String,
        to: String,
        overwrite: bool,
    },
    ReplaceInFile {
        name: Option<String>,
        when: Option<String>,
        path: String,
        replacements: Vec<(String, String)>,
        require_match: bool,
        expected_matches: Option<usize>,
    },
}

/// A manifest.
#[derive(Debug, Clone, PartialEq, Eq)]
pub struct Manifest {
    pub version: u32,
    pub name: String,
    pub description: Option<String>,
    pub allow_outside_cwd: bool,
    pub inputs: Vec<InputSpec>,
    pub steps: Vec<Step>,
}

/// Why a manifest was refused.  Step numbers count from 1.
#[derive(Debug, Clone, PartialEq, Eq)]
pub enum ManifestError {
    UnsupportedVersion(u32),
    NameRequired,
    NoSteps,
    InputNameRequired,
    InvalidInputName(String),
    DuplicateInputName(String),
    PromptRequired(String),
    ShellCmdRequired(usize),
    WriteFilePathRequired(usize),
    MkdirPathRequired(usize),
    CopyPathsRequired(usize),
    ReplacePathRequired(usize),
    EmptyReplacementKey(usize),
    EmptyWhen(usize),
    InvalidWhen(usize, ConditionError),
}

pub enum SpecManifestError {
    UnsupportedVersion(u32),
    NameRequired,
    NoSteps,
    InputNameRequired,
    InvalidInputName(Seq<char>),
    DuplicateInputName(Seq<char>),
    PromptRequired(Seq<char>),
    ShellCmdRequired(nat),
    WriteFilePathRequired(nat),
    MkdirPathRequired(nat),
    CopyPathsRequired(nat),
    ReplacePathRequired(nat),
    EmptyReplacementKey(nat),
    EmptyWhen(nat),
    InvalidWhen(nat, SpecConditionError),
}

impl View for ManifestError {
    type V = SpecManifestError;

    open spec fn view(&self) -> SpecManifestError {
        match self {
            ManifestError::UnsupportedVersion(v) => SpecManifestError::UnsupportedVersion(*v),
            ManifestError::NameRequired => SpecManifestError::NameRequired,
            ManifestError::NoSteps => SpecManifestError::NoSteps,
            ManifestError::InputNameRequired => SpecManifestError::InputNameRequired,
            ManifestError::InvalidInputName(n) => SpecManifestError::InvalidInputName(n@),
            ManifestError::DuplicateInputName(n) => SpecManifestError::DuplicateInputName(n@),
            ManifestError::PromptRequired(n) => SpecManifestError::PromptRequired(n@),
            ManifestError::ShellCmdRequired(i) => SpecManifestError::ShellCmdRequired(*i as nat),
            ManifestError::WriteFilePathRequired(i) => SpecManifestError::WriteFilePathRequired(
                *i as nat,
            ),
            ManifestError::MkdirPathRequired(i) => SpecManifestError::MkdirPathRequired(*i as nat),
            ManifestError::CopyPathsRequired(i) => SpecManifestError::CopyPathsRequired(*i as nat),
            ManifestError::ReplacePathRequired(i) => SpecManifestError::ReplacePathRequired(
                *i as nat,
            ),
            ManifestError::EmptyReplacementKey(i) => SpecManifestError::EmptyReplacementKey(
                *i as nat,
            ),
            ManifestError::EmptyWhen(i) => SpecManifestError::EmptyWhen(*i as nat),
            ManifestError::InvalidWhen(i, e) => SpecManifestError::InvalidWhen(*i as nat, e@),
        }
    }
}

/// The text is empty or whitespace only.
pub open spec fn blank(s: Seq<char>) -> bool {
    trim(s).len() == 0
}

pub fn is_blank(s: &str) -> (r: bool)
    ensures
        r == blank(s@),
{
    let v = chars_of(s);
    let (a, b) = trim_bounds(&v);
    a == b
}

/// An input name starts with an ASCII letter or `_` and goes on with ASCII letters, digits
/// and `_`.
pub open spec fn valid_input_name(n: Seq<char>) -> bool {
    &&& n.len() > 0
    &&& (is_alpha(n[0]) || n[0] == '_')
    &&& forall|i: int| 1 <= i < n.len() ==> is_alnum(#[trigger] n[i]) || n[i] == '_'
}

/// An input name is valid exactly when it is an identifier of ASCII letters, digits and `_`
/// that does not start with a digit: for instance `api_v2_token` and `db2`, but not `2db`,
/// `my-name` or the empty name.
pub proof fn lemma_valid_input_names(n: Seq<char>)
    ensures
        valid_input_name(n) <==> (n.len() > 0 && (('a' <= n[0] <= 'z') || ('A' <= n[0] <= 'Z') || n[0] == '_')
            && forall|i: int|
            1 <= i < n.len() ==> ('a' <= #[trigger] n[i] <= 'z') || ('A' <= n[i] <= 'Z') || ('0' <= n[i] <= '9')
                || n[i] == '_'),
{
}

#[verifier::loop_isolation(false)]
pub fn is_valid_input_name(name: &str) -> (r: bool)
    ensures
        r == valid_input_name(name@),
{
    let v = chars_of(name);
    if v.len() == 0 {
        return false;
    }
    if !(char_is_alpha(v[0]) || v[0] == '_') {
        return false;
    }
    let mut i: usize = 1;
    while i < v.len()
        invariant
            1 <= i <= v@.len(),
            forall|j: int| 1 <= j < i ==> is_alnum(#[trigger] v@[j]) || v@[j] == '_',
        decreases v@.len() - i,
    {
        if !(char_is_alnum(v[i]) || v[i] == '_') {
            assert(!(is_alnum(v@[i as int]) || v@[i as int] == '_'));
            assert(!valid_input_name(v@));
            return false;
        }
        i = i + 1;
    }
    true
}

pub struct SpecInput {
    pub name: Seq<char>,
    pub prompt: Seq<char>,
    pub secret: bool,
    pub required: bool,
    pub default: Option<Seq<char>>,
}

pub open spec fn opt_view(o: Option<String>) -> Option<Seq<char>> {
    match o {
        Some(s) => Some(s@),
        None => None,
    }
}

impl View for InputSpec {
    type V = SpecInput;

    open spec fn view(&self) -> SpecInput {
        SpecInput {
            name: self.name@,
            prompt: self.prompt@,
            secret: self.secret,
            required: self.required,
            default: opt_view(self.default),
        }
    }
}

pub open spec fn inputs_view(v: Seq<InputSpec>) -> Seq<SpecInput> {
    v.map_values(|i: InputSpec| i@)
}

/// The check of the input at `i`, given the inputs before it.
pub open spec fn input_check(ins: Seq<SpecInput>, i: int) -> Result<(), SpecManifestError> {
    let n = ins[i].name;
    if blank(n) {
        Err(SpecManifestError::InputNameRequired)
    } else if !valid_input_name(n) {
        Err(SpecManifestError::InvalidInputName(n))
    } else if exists|j: int| 0 <= j < i && #[trigger] ins[j].name == n {
        Err(SpecManifestError::DuplicateInputName(n))
    } else if blank(ins[i].prompt) {
        Err(SpecManifestError::PromptRequired(n))
    } else {
        Ok(())
    }
}

/// The inputs from `i` on pass their checks; the first failure is the error.
pub open spec fn inputs_check_from(ins: Seq<SpecInput>, i: int) -> Result<(), SpecManifestError>
    decreases ins.len() - i,
{
    if i < 0 || i >= ins.len() {
        Ok(())
    } else {
        match input_check(ins, i) {
            Err(e) => Err(e),
            Ok(()) => inputs_check_from(ins, i + 1),
        }
    }
}

/// The mathematical form of a step: only what its checks and descriptions read.
pub enum SpecStep {
    Shell { name: Option<Seq<char>>, when: Option<Seq<char>>, cmd: Seq<char> },
    WriteFile { name: Option<Seq<char>>, when: Option<Seq<char>>, path: Seq<char> },
    Mkdir { name: Option<Seq<char>>, when: Option<Seq<char>>, path: Seq<char> },
    Copy { name: Option<Seq<char>>, when: Option<Seq<char>>, from: Seq<char>, to: Seq<char> },
    ReplaceInFile {
        name: Option<Seq<char>>,
        when: Option<Seq<char>>,
        path: Seq<char>,
        keys: Seq<Seq<char>>,
    },
}

impl View for Step {
    type V = SpecStep;

    open spec fn view(&self) -> SpecStep {
        match self {
            Step::Shell { name, when, cmd, .. } => SpecStep::Shell {
                name: opt_view(*name),
                when: opt_view(*when),
                cmd: cmd@,
            },
            Step::WriteFile { name, when, path, .. } => SpecStep::WriteFile {
                name: opt_view(*name),
                when: opt_view(*when),
                path: path@,
            },
            Step::Mkdir { name, when, path } => SpecStep::Mkdir {
                name: opt_view(*name),
                when: opt_view(*when),
                path: path@,
            },
            Step::Copy { name, when, from, to, .. } => SpecStep::Copy {
                name: opt_view(*name),
                when: opt_view(*when),
                from: from@,
                to: to@,
            },
            Step::ReplaceInFile { name, when, path, replacements, .. } => SpecStep::ReplaceInFile {
                name: opt_view(*name),
                when: opt_view(*when),
                path: path@,
                keys: keys_view(replacements@),
            },
        }
    }
}

/// The keys of key/value pairs.
pub open spec fn keys_view(v: Seq<(String, String)>) -> Seq<Seq<char>> {
    v.map_values(|p: (String, String)| p.0@)
}

pub open spec fn step_name(s: SpecStep) -> Option<Seq<char>> {
    match s {
        SpecStep::Shell { name, .. } => name,
        SpecStep::WriteFile { name, .. } => name,
        SpecStep::Mkdir { name, .. } => name,
        SpecStep::Copy { name, .. } => name,
        SpecStep::ReplaceInFile { name, .. } => name,
    }
}

pub open spec fn step_when(s: SpecStep) -> Option<Seq<char>> {
    match s {
        SpecStep::Shell { when, .. } => when,
        SpecStep::WriteFile { when, .. } => when,
        SpecStep::Mkdir { when, .. } => when,
        SpecStep::Copy { when, .. } => when,
        SpecStep::ReplaceInFile { when, .. } => when,
    }
}

/// The type of a step as manifests write it.
pub open spec fn step_kind(s: SpecStep) -> Seq<char> {
    match s {
        SpecStep::Shell { .. } => "shell"@,
        SpecStep::WriteFile { .. } => "write_file"@,
        SpecStep::Mkdir { .. } => "mkdir"@,
        SpecStep::Copy { .. } => "copy"@,
        SpecStep::ReplaceInFile { .. } => "replace_in_file"@,
    }
}

/// The plan line of a step.
pub open spec fn plan_line_spec(s: SpecStep) -> Seq<char> {
    match s {
        SpecStep::Shell { cmd, .. } => "Shell: "@ + cmd,
        SpecStep::WriteFile { path, .. } => "Write file: "@ + path,
        SpecStep::Mkdir { path, .. } => "Create directory: "@ + path,
        SpecStep::Copy { from, to, .. } => "Copy: "@ + from + " -> "@ + to,
        SpecStep::ReplaceInFile { path, .. } => "Replace in file: "@ + path,
    }
}

/// The command of a shell step.
pub open spec fn command_spec(s: SpecStep) -> Option<Seq<char>> {
    match s {
        SpecStep::Shell { cmd, .. } => Some(cmd),
        _ => None,
    }
}

/// The path a step may write.
pub open spec fn written_path_spec(s: SpecStep) -> Option<Seq<char>> {
    match s {
        SpecStep::Shell { .. } => None,
        SpecStep::WriteFile { path, .. } => Some(path),
        SpecStep::Mkdir { path, .. } => Some(path),
        SpecStep::Copy { to, .. } => Some(to),
        SpecStep::ReplaceInFile { path, .. } => Some(path),
    }
}

/// The check of a step's `when`, if it has one.
pub open spec fn when_check(s: SpecStep, index: nat) -> Result<(), SpecManifestError> {
    match step_when(s) {
        None => Ok(()),
        Some(w) => if blank(w) {
            Err(SpecManifestError::EmptyWhen(index))
        } else {
            match validate_syntax_spec(w) {
                Err(e) => Err(SpecManifestError::InvalidWhen(index, e)),
                Ok(()) => Ok(()),
            }
        },
    }
}

/// The check of the step numbered `index`.
pub open spec fn step_check(s: SpecStep, index: nat) -> Result<(), SpecManifestError> {
    match s {
        SpecStep::Shell { cmd, .. } => if blank(cmd) {
            Err(SpecManifestError::ShellCmdRequired(index))
        } else {
            when_check(s, index)
        },
        SpecStep::WriteFile { path, .. } => if blank(path) {
            Err(SpecManifestError::WriteFilePathRequired(index))
        } else {
            when_check(s, index)
        },
        SpecStep::Mkdir { path, .. } => if blank(path) {
            Err(SpecManifestError::MkdirPathRequired(index))
        } else {
            when_check(s, index)
        },
        SpecStep::Copy { from, to, .. } => if blank(from) || blank(to) {
            Err(SpecManifestError::CopyPathsRequired(index))
        } else {
            when_check(s, index)
        },
        SpecStep::ReplaceInFile { path, keys, .. } => if blank(path) || keys.len() == 0 {
            Err(SpecManifestError::ReplacePathRequired(index))
        } else if exists|k: int| 0 <= k < keys.len() && #[trigger] keys[k].len() == 0 {
            Err(SpecManifestError::EmptyReplacementKey(index))
        } else {
            when_check(s, index)
        },
    }
}

pub open spec fn steps_view(v: Seq<Step>) -> Seq<SpecStep> {
    v.map_values(|s: Step| s@)
}

/// The steps from `i` on pass their checks; the first failure is the error.
pub open spec fn steps_check_from(steps: Seq<SpecStep>, i: int) -> Result<(), SpecManifestError>
    decreases steps.len() - i,
{
    if i < 0 || i >= steps.len() {
        Ok(())
    } else {
        match step_check(steps[i], (i + 1) as nat) {
            Err(e) => Err(e),
            Ok(()) => steps_check_from(steps, i + 1),
        }
    }
}

/// What `Manifest::validate` decides.
pub open spec fn manifest_check(
    version: u32,
    name: Seq<char>,
    inputs: Seq<SpecInput>,
    steps: Seq<SpecStep>,
) -> Result<(), SpecManifestError> {
    if version != 1 {
        Err(SpecManifestError::UnsupportedVersion(version))
    } else if blank(name) {
        Err(SpecManifestError::NameRequired)
    } else if steps.len() == 0 {
        Err(SpecManifestError::NoSteps)
    } else {
        match inputs_check_from(inputs, 0) {
            Err(e) => Err(e),
            Ok(()) => steps_check_from(steps, 0),
        }
    }
}

impl Manifest {
    pub open spec fn check(&self) -> Result<(), SpecManifestError> {
        manifest_check(self.version, self.name@, inputs_view(self.inputs@), steps_view(self.steps@))
    }

    /// Checks a manifest: version 1, a name, at least one step, well-formed and distinct input
    /// names with prompts, and steps with their required fields and valid `when` conditions.
    #[verifier::loop_isolation(false)]
    pub fn validate(&self) -> (r: Result<(), ManifestError>)
        ensures
            match r {
                Ok(()) => self.check() == Ok::<(), SpecManifestError>(()),
                Err(e) => self.check() == Err::<(), SpecManifestError>(e@),
            },
    {
        if self.version != 1 {
            return Err(ManifestError::UnsupportedVersion(self.version));
        }
        if is_blank(self.name.as_str()) {
            return Err(ManifestError::NameRequired);
        }
        if self.steps.len() == 0 {
            return Err(ManifestError::NoSteps);
        }
        let ghost ins = inputs_view(self.inputs@);
        let mut i: usize = 0;
        while i < self.inputs.len()
            invariant
                self.version == 1,
                !blank(self.name@),
                self.steps@.len() > 0,
                0 <= i <= self.inputs@.len(),
                ins == inputs_view(self.inputs@),
                inputs_check_from(ins, 0) == inputs_check_from(ins, i as int),
            decreases self.inputs@.len() - i,
        {
            let input = &self.inputs[i];
            assert(ins[i as int] == input@);
            if is_blank(input.name.as_str()) {
                return Err(ManifestError::InputNameRequired);
            }
            if !is_valid_input_name(input.name.as_str()) {
                return Err(ManifestError::InvalidInputName(input.name.clone()));
            }
            let name = chars_of(input.name.as_str());
            let mut j: usize = 0;
            while j < i
                invariant
                    0 <= j <= i < self.inputs@.len(),
                    ins == inputs_view(self.inputs@),
                    name@ == ins[i as int].name,
                    forall|m: int| 0 <= m < j ==> ins[m].name != name@,
                decreases i - j,
            {
                let other = chars_of(self.inputs[j].name.as_str());
                assert(ins[j as int] == self.inputs@[j as int]@);
                if crate::text::chars_eq(&other, &name) {
                    assert(ins[j as int].name == ins[i as int].name);
                    assert(input_check(ins, i as int) == Err::<(), SpecManifestError>(
                        SpecManifestError::DuplicateInputName(input.name@),
                    ));
                    return Err(ManifestError::DuplicateInputName(input.name.clone()));
                }
                j = j + 1;
            }
            if is_blank(input.prompt.as_str()) {
                return Err(ManifestError::PromptRequired(input.name.clone()));
            }
            i = i + 1;
        }
        let ghost sts = steps_view(self.steps@);
        let mut k: usize = 0;
        while k < self.steps.len()
            invariant
                self.version == 1,
                !blank(self.name@),
                self.steps@.len() > 0,
                0 <= k <= self.steps@.len(),
                sts == steps_view(self.steps@),
                inputs_check_from(inputs_view(self.inputs@), 0) == Ok::<(), SpecManifestError>(()),
                steps_check_from(sts, 0) == steps_check_from(sts, k as int),
            decreases self.steps@.len() - k,
        {
            assert(sts[k as int] == self.steps@[k as int]@);
            self.steps[k].validate(k + 1)?;
            k = k + 1;
        }
        Ok(())
    }
}

impl Step {
    /// The step's name, if it has one.
    pub fn name(&self) -> (r: Option<&str>)
        ensures
            opt_str_view(r) == step_name(self@),
    {
        match self {
            Step::Shell { name, .. } | Step::WriteFile { name, .. } | Step::Mkdir { name, .. }
            | Step::Copy { name, .. } | Step::ReplaceInFile { name, .. } => match name {
                Some(n) => Some(n.as_str()),
                None => None,
            },
        }
    }

    /// The step's `when` condition, if it has one.
    pub fn when(&self) -> (r: Option<&str>)
        ensures
            opt_str_view(r) == step_when(self@),
    {
        match self {
            Step::Shell { when, .. } | Step::WriteFile { when, .. } | Step::Mkdir { when, .. }
            | Step::Copy { when, .. } | Step::ReplaceInFile { when, .. } => match when {
                Some(w) => Some(w.as_str()),
                None => None,
            },
        }
    }

    /// The step's type as manifests write it.
    pub fn kind(&self) -> (r: &'static str)
        ensures
            r@ == step_kind(self@),
    {
        proof {
            reveal_strlit("shell");
            reveal_strlit("write_file");
            reveal_strlit("mkdir");
            reveal_strlit("copy");
            reveal_strlit("replace_in_file");
        }
        match self {
            Step::Shell { .. } => "shell",
            Step::WriteFile { .. } => "write_file",
            Step::Mkdir { .. } => "mkdir",
            Step::Copy { .. } => "copy",
            Step::ReplaceInFile { .. } => "replace_in_file",
        }
    }

    /// The line that describes the step in a plan.
    pub fn plan_line(&self) -> (r: String)
        ensures
            r@ == plan_line_spec(self@),
    {
        match self {
            Step::Shell { cmd, .. } => cat("Shell: ", cmd.as_str()),
            Step::WriteFile { path, .. } => cat("Write file: ", path.as_str()),
            Step::Mkdir { path, .. } => cat("Create directory: ", path.as_str()),
            Step::Copy { from, to, .. } => {
                let a = cat("Copy: ", from.as_str());
                let b = cat(a.as_str(), " -> ");
                cat(b.as_str(), to.as_str())
            },
            Step::ReplaceInFile { path, .. } => cat("Replace in file: ", path.as_str()),
        }
    }

    /// The command a shell step may execute.
    pub fn command_for_inspect(&self) -> (r: Option<&str>)
        ensures
            opt_str_view(r) == command_spec(self@),
    {
        match self {
            Step::Shell { cmd, .. } => Some(cmd.as_str()),
            _ => None,
        }
    }

    /// The path a step may write: the target of a copy, the path of the other file steps.
    pub fn path_for_inspect(&self) -> (r: Option<&str>)
        ensures
            opt_str_view(r) == written_path_spec(self@),
    {
        match self {
            Step::WriteFile { path, .. } | Step::Mkdir { path, .. } | Step::ReplaceInFile {
                path,
                ..
            } => Some(path.as_str()),
            Step::Copy { to, .. } => Some(to.as_str()),
            Step::Shell { .. } => None,
        }
    }

    /// Checks the step numbered `index`.
    #[verifier::loop_isolation(false)]
    pub fn validate(&self, index: usize) -> (r: Result<(), ManifestError>)
        ensures
            match r {
                Ok(()) => step_check(self@, index as nat) == Ok::<(), SpecManifestError>(()),
                Err(e) => step_check(self@, index as nat) == Err::<(), SpecManifestError>(e@),
            },
    {
        match self {
            Step::Shell { cmd, .. } => {
                if is_blank(cmd.as_str()) {
                    return Err(ManifestError::ShellCmdRequired(index));
                }
            },
            Step::WriteFile { path, .. } => {
                if is_blank(path.as_str()) {
                    return Err(ManifestError::WriteFilePathRequired(index));
                }
            },
            Step::Mkdir { path, .. } => {
                if is_blank(path.as_str()) {
                    return Err(ManifestError::MkdirPathRequired(index));
                }
            },
            Step::Copy { from, to, .. } => {
                if is_blank(from.as_str()) || is_blank(to.as_str()) {
                    return Err(ManifestError::CopyPathsRequired(index));
                }
            },
            Step::ReplaceInFile { path, replacements, .. } => {
                if is_blank(path.as_str()) || replacements.len() == 0 {
                    return Err(ManifestError::ReplacePathRequired(index));
                }
                let ghost keys = keys_view(replacements@);
                let mut i: usize = 0;
                while i < replacements.len()
                    invariant
                        0 <= i <= replacements@.len(),
                        keys == keys_view(replacements@),
                        forall|k: int| 0 <= k < i ==> #[trigger] keys[k].len() != 0,
                    decreases replacements@.len() - i,
                {
                    assert(keys[i as int] == replacements@[i as int].0@);
                    if replacements[i].0.as_str().is_empty() {
                        assert(keys[i as int].len() == 0);
                        return Err(ManifestError::EmptyReplacementKey(index));
                    }
                    i = i + 1;
                }
            },
        }
        match self.when() {
            None => Ok(()),
            Some(w) => {
                if is_blank(w) {
                    return Err(ManifestError::EmptyWhen(index));
                }
                match validate_syntax(w) {
                    Err(e) => Err(ManifestError::InvalidWhen(index, e)),
                    Ok(()) => Ok(()),
                }
            },
        }
    }
}

pub open spec fn opt_str_view(o: Option<&str>) -> Option<Seq<char>> {
    match o {
        Some(s) => Some(s@),
        None => None,
    }
}

} // verus!

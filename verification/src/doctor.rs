//! What `tali doctor` reports: the platform, the tools found, and their versions.
use vstd::prelude::*;
use crate::cleanup::{lemma_text_lt_transitive, text_before, text_lt};
use crate::text::{cat, chars_eq, chars_of, string_of, trim, trim_exec};
use crate::update_check::before_newline;
use crate::manifest::opt_view;

verus! {

/// Whether a tool answered `--version`, and the first line of its answer.
#[derive(Debug, Clone, PartialEq, Eq)]
pub struct ToolVersion {
    pub found: bool,
    pub version: Option<String>,
}

/// What `tali doctor` captures. `tools` is in name order, each name once.
#[derive(Debug, Clone, PartialEq, Eq)]
pub struct PlatformInfo {
    pub os: String,
    pub architecture: String,
    pub current_directory: String,
    pub shell: Option<String>,
    pub path: Option<String>,
    pub tali_version: String,
    pub rustc_version: Option<String>,
    pub tools: Vec<(String, ToolVersion)>,
}

/// The tools doctor looks for: the common ones, with `brew` on macOS and `winget` on Windows.
pub open spec fn common_tools_spec(is_macos: bool, is_windows: bool) -> Seq<Seq<char>> {
    seq![
        "git"@,
        "node"@,
        "npm"@,
        "pnpm"@,
        "yarn"@,
        "python"@,
        "python3"@,
        "pip"@,
        "cargo"@,
        "docker"@,
    ] + (if is_macos { seq!["brew"@] } else { Seq::empty() }) + (if is_windows {
        seq!["winget"@]
    } else {
        Seq::empty()
    })
}

/// The tools doctor looks for on this platform.
pub fn common_tools(is_macos: bool, is_windows: bool) -> (r: Vec<String>)
    ensures
        r@.map_values(|s: String| s@) == common_tools_spec(is_macos, is_windows),
{
    let names = vec!["git", "node", "npm", "pnpm", "yarn", "python", "python3", "pip", "cargo", "docker"];
    let mut out: Vec<String> = Vec::new();
    let mut i: usize = 0;
    while i < names.len()
        invariant
            0 <= i <= names@.len(),
            names@ == seq!["git", "node", "npm", "pnpm", "yarn", "python", "python3", "pip", "cargo", "docker"],
            out@.map_values(|s: String| s@) == names@.take(i as int).map_values(|w: &str| w@),
        decreases names@.len() - i,
    {
        let ghost before = out@.map_values(|s: String| s@);
        out.push(names[i].to_owned());
        proof {
            assert(out@.map_values(|s: String| s@) =~= before.push(names@[i as int]@));
            assert(names@.take(i + 1).map_values(|w: &str| w@) =~= names@.take(i as int).map_values(
                |w: &str| w@,
            ).push(names@[i as int]@));
        }
        i = i + 1;
    }
    proof {
        assert(names@.take(names@.len() as int) =~= names@);
    }
    let ghost base = out@.map_values(|s: String| s@);
    if is_macos {
        out.push("brew".to_owned());
    }
    let ghost mid = out@.map_values(|s: String| s@);
    if is_windows {
        out.push("winget".to_owned());
    }
    proof {
        assert(base =~= seq![
            "git"@,
            "node"@,
            "npm"@,
            "pnpm"@,
            "yarn"@,
            "python"@,
            "python3"@,
            "pip"@,
            "cargo"@,
            "docker"@,
        ]);
        assert(mid =~= base + (if is_macos { seq!["brew"@] } else { Seq::<Seq<char>>::empty() }));
        assert(out@.map_values(|s: String| s@) =~= common_tools_spec(is_macos, is_windows));
    }
    out
}

/// A tool is found when `--version` ran and succeeded or wrote anything.
pub fn tool_found(ran: bool, success: bool, stdout_empty: bool, stderr_empty: bool) -> (r: bool)
    ensures
        r == (ran && (success || !stdout_empty || !stderr_empty)),
{
    ran && (success || !stdout_empty || !stderr_empty)
}

/// What doctor records of a tool from its `--version` run: `None` when it could not be run,
/// else whether it succeeded, and its standard output and error as text.
pub fn capture_tool(output: Option<(bool, String, String)>) -> (r: ToolVersion)
    ensures
        match output {
            None => !r.found && r.version is None,
            Some((success, stdout, stderr)) => r.found == (success || stdout@.len() > 0 || stderr@.len() > 0)
                && opt_view(r.version) == version_spec(stdout@, stderr@),
        },
{
    match output {
        None => ToolVersion { found: tool_found(false, false, true, true), version: None },
        Some((success, stdout, stderr)) => ToolVersion {
            found: tool_found(true, success, stdout.as_str().is_empty(), stderr.as_str().is_empty()),
            version: version_from_output(stdout.as_str(), stderr.as_str()),
        },
    }
}

/// The version a tool reports: the first line of its standard output, or of its standard
/// error when the output is empty, trimmed; none when that line is empty.
pub open spec fn version_spec(stdout: Seq<char>, stderr: Seq<char>) -> Option<Seq<char>> {
    let text = if stdout.len() == 0 { stderr } else { stdout };
    let first = trim(before_newline(text));
    if text.len() == 0 || first.len() == 0 {
        None
    } else {
        Some(first)
    }
}

/// The version a tool reports on `--version`.
pub fn version_from_output(stdout: &str, stderr: &str) -> (r: Option<String>)
    ensures
        crate::manifest::opt_view(r) == version_spec(stdout@, stderr@),
{
    let text = if stdout.is_empty() { chars_of(stderr) } else { chars_of(stdout) };
    if text.len() == 0 {
        return None;
    }
    let nl = vec!['\n'];
    proof {
        assert(nl@ =~= seq!['\n']);
        crate::text::lemma_find_from(text@, nl@, 0);
    }
    let head = match crate::text::find_from_exec(&text, &nl, 0) {
        Some(i) => crate::text::slice_copy(&text, 0, i),
        None => crate::text::slice_copy(&text, 0, text.len()),
    };
    proof {
        assert(text@.subrange(0, text@.len() as int) =~= text@);
    }
    let first = trim_exec(&head);
    if first.len() == 0 {
        None
    } else {
        Some(string_of(&first))
    }
}

/// Tool names in order, each once, as a map keyed by name keeps them.
pub open spec fn tools_ordered(tools: Seq<(String, ToolVersion)>) -> bool {
    forall|i: int, j: int| 0 <= i < j < tools.len() ==> text_lt(#[trigger] tools[i].0@, #[trigger] tools[j].0@)
}

pub open spec fn tool_names(tools: Seq<(String, ToolVersion)>) -> Seq<Seq<char>> {
    tools.map_values(|t: (String, ToolVersion)| t.0@)
}

/// Records a tool's version under its name, keeping the names in order; a name recorded
/// before gets the new version.
pub fn insert_tool(tools: &mut Vec<(String, ToolVersion)>, name: String, version: ToolVersion)
    requires
        tools_ordered(old(tools)@),
    ensures
        tools_ordered(final(tools)@),
        tool_names(final(tools)@).to_set() == tool_names(old(tools)@).to_set().insert(name@),
        exists|k: int| 0 <= k < final(tools)@.len() && #[trigger] final(tools)@[k].0@ == name@ && final(tools)@[k].1 == version,
        forall|k: int| 0 <= k < final(tools)@.len() && final(tools)@[k].0@ != name@ ==>
            exists|m: int| 0 <= m < old(tools)@.len() && #[trigger] old(tools)@[m] == #[trigger] final(tools)@[k],
{
    let ghost ov = tools@;
    let key = chars_of(name.as_str());
    let mut p: usize = 0;
    while p < tools.len() && text_before(&chars_of(tools[p].0.as_str()), &key)
        invariant
            0 <= p <= tools@.len(),
            tools@ == ov,
            key@ == name@,
            tools_ordered(ov),
            forall|k: int| 0 <= k < p ==> text_lt(#[trigger] ov[k].0@, name@),
        decreases tools@.len() - p,
    {
        p = p + 1;
    }
    if p < tools.len() && chars_eq(&chars_of(tools[p].0.as_str()), &key) {
        tools.set(p, (name, version));
        proof {
            let nv = tools@;
            assert(nv =~= ov.update(p as int, nv[p as int]));
            assert(tools_ordered(nv)) by {
                assert forall|i: int, j: int| 0 <= i < j < nv.len() implies text_lt(#[trigger] nv[i].0@, #[trigger] nv[j].0@) by {
                    if i != p && j != p {
                        assert(nv[i] == ov[i] && nv[j] == ov[j]);
                    } else if i == p {
                        assert(nv[j] == ov[j]);
                        assert(nv[i].0@ == ov[i].0@);
                    } else {
                        assert(nv[i] == ov[i]);
                        assert(nv[j].0@ == ov[j].0@);
                    }
                }
            }
            assert(tool_names(nv) =~= tool_names(ov));
            assert(tool_names(ov)[p as int] == name@);
            assert(tool_names(ov).to_set() =~= tool_names(ov).to_set().insert(name@));
            assert forall|k: int| 0 <= k < nv.len() && nv[k].0@ != name@ implies exists|m: int|
                0 <= m < ov.len() && #[trigger] ov[m] == #[trigger] nv[k] by {
                assert(k != p);
                assert(ov[k] == nv[k]);
            }
        }
        return;
    }
    let ghost nm = name@;
    tools.insert(p, (name, version));
    proof {
        let nv = tools@;
        assert(nv =~= ov.insert(p as int, nv[p as int]));
        if p < ov.len() {
            assert(!text_lt(ov[p as int].0@, nm));
            assert(ov[p as int].0@ != nm);
            crate::cleanup::lemma_text_lt_total(nm, ov[p as int].0@);
        }
        assert forall|i: int, j: int| 0 <= i < j < nv.len() implies text_lt(#[trigger] nv[i].0@, #[trigger] nv[j].0@) by {
            if i < p && j < p {
                assert(nv[i] == ov[i] && nv[j] == ov[j]);
            } else if i < p && j == p {
                assert(nv[i] == ov[i]);
            } else if i < p {
                assert(nv[i] == ov[i] && nv[j] == ov[j - 1]);
            } else if i == p {
                assert(nv[j] == ov[j - 1]);
                if j - 1 > p {
                    lemma_text_lt_transitive(nm, ov[p as int].0@, ov[j - 1].0@);
                }
            } else {
                assert(nv[i] == ov[i - 1] && nv[j] == ov[j - 1]);
            }
        }
        assert(tool_names(nv) =~= tool_names(ov).insert(p as int, nm));
        assert(tool_names(nv).to_set() =~= tool_names(ov).to_set().insert(nm)) by {
            assert forall|x: Seq<char>| tool_names(nv).to_set().contains(x) <==> tool_names(ov).to_set().insert(nm).contains(x) by {
                if tool_names(nv).to_set().contains(x) {
                    let k = choose|k: int| 0 <= k < tool_names(nv).len() && tool_names(nv)[k] == x;
                    if k < p {
                        assert(tool_names(ov)[k] == x);
                    } else if k > p {
                        assert(tool_names(ov)[k - 1] == x);
                    }
                }
                if tool_names(ov).to_set().contains(x) {
                    let k = choose|k: int| 0 <= k < tool_names(ov).len() && tool_names(ov)[k] == x;
                    if k < p {
                        assert(tool_names(nv)[k] == x);
                    } else {
                        assert(tool_names(nv)[k + 1] == x);
                    }
                }
                if x == nm {
                    assert(tool_names(nv)[p as int] == x);
                }
            }
        }
        assert(nv[p as int].0@ == nm);
        assert forall|k: int| 0 <= k < nv.len() && nv[k].0@ != nm implies exists|m: int|
            0 <= m < ov.len() && #[trigger] ov[m] == #[trigger] nv[k] by {
            if k < p {
                assert(ov[k] == nv[k]);
            } else {
                assert(k != p);
                assert(ov[k - 1] == nv[k]);
            }
        }
    }
}

pub open spec fn or_unknown(o: Option<Seq<char>>, fallback: Seq<char>) -> Seq<char> {
    match o {
        Some(t) => t,
        None => fallback,
    }
}

/// The line for one tool: its version, `found` without one, or `missing`.
pub open spec fn tool_line(name: Seq<char>, t: ToolVersion) -> Seq<char> {
    if t.found {
        match t.version {
            Some(v) => "- "@ + name + ": "@ + v@,
            None => "- "@ + name + ": found"@,
        }
    } else {
        "- "@ + name + ": missing"@
    }
}

/// The lines of `tali doctor`.
pub open spec fn doctor_lines_spec(info: PlatformInfo) -> Seq<Seq<char>> {
    seq![
        "Tali doctor"@,
        "OS: "@ + info.os@,
        "Architecture: "@ + info.architecture@,
        "Current directory: "@ + info.current_directory@,
        "Shell: "@ + or_unknown(opt_view(info.shell), "<unknown>"@),
        "PATH: "@ + or_unknown(opt_view(info.path), "<unknown>"@),
        "Tali version: "@ + info.tali_version@,
        "Rust binary version: "@ + or_unknown(opt_view(info.rustc_version), "<missing>"@),
        "Tools:"@,
    ] + Seq::new(info.tools@.len(), |i: int| tool_line(info.tools@[i].0@, info.tools@[i].1))
}

fn or_text(o: &Option<String>, fallback: &str) -> (r: String)
    ensures
        r@ == or_unknown(opt_view(*o), fallback@),
{
    match o {
        Some(t) => t.as_str().to_owned(),
        None => fallback.to_owned(),
    }
}

/// The lines of `tali doctor`.
pub fn doctor_lines(info: &PlatformInfo) -> (r: Vec<String>)
    ensures
        r@.map_values(|s: String| s@) == doctor_lines_spec(*info),
{
    let mut out: Vec<String> = Vec::new();
    out.push("Tali doctor".to_owned());
    out.push(cat("OS: ", info.os.as_str()));
    out.push(cat("Architecture: ", info.architecture.as_str()));
    out.push(cat("Current directory: ", info.current_directory.as_str()));
    out.push(cat("Shell: ", or_text(&info.shell, "<unknown>").as_str()));
    out.push(cat("PATH: ", or_text(&info.path, "<unknown>").as_str()));
    out.push(cat("Tali version: ", info.tali_version.as_str()));
    out.push(cat("Rust binary version: ", or_text(&info.rustc_version, "<missing>").as_str()));
    out.push("Tools:".to_owned());
    let ghost head = out@.map_values(|s: String| s@);
    let ghost tl = Seq::new(info.tools@.len(), |i: int| tool_line(info.tools@[i].0@, info.tools@[i].1));
    let mut i: usize = 0;
    while i < info.tools.len()
        invariant
            0 <= i <= info.tools@.len(),
            tl == Seq::new(info.tools@.len(), |i: int| tool_line(info.tools@[i].0@, info.tools@[i].1)),
            out@.map_values(|s: String| s@) == head + tl.take(i as int),
        decreases info.tools@.len() - i,
    {
        let name = info.tools[i].0.as_str();
        let t = &info.tools[i].1;
        let a = cat("- ", name);
        let l = if t.found {
            match &t.version {
                Some(v) => {
                    let b = cat(a.as_str(), ": ");
                    cat(b.as_str(), v.as_str())
                },
                None => cat(a.as_str(), ": found"),
            }
        } else {
            cat(a.as_str(), ": missing")
        };
        let ghost before = out@.map_values(|s: String| s@);
        out.push(l);
        proof {
            assert(l@ == tl[i as int]);
            assert(out@.map_values(|s: String| s@) =~= before.push(l@));
            assert(tl.take(i + 1) =~= tl.take(i as int).push(tl[i as int]));
        }
        i = i + 1;
    }
    proof {
        assert(tl.take(info.tools@.len() as int) =~= tl);
        assert(head =~= seq![
            "Tali doctor"@,
            "OS: "@ + info.os@,
            "Architecture: "@ + info.architecture@,
            "Current directory: "@ + info.current_directory@,
            "Shell: "@ + or_unknown(opt_view(info.shell), "<unknown>"@),
            "PATH: "@ + or_unknown(opt_view(info.path), "<unknown>"@),
            "Tali version: "@ + info.tali_version@,
            "Rust binary version: "@ + or_unknown(opt_view(info.rustc_version), "<missing>"@),
            "Tools:"@,
        ]);
    }
    out
}

} // verus!

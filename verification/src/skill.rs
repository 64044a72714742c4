//! Installing the tali agent skill into a skills directory.
use vstd::prelude::*;
use crate::paths::{join, join_path};
use crate::text::cat;

verus! {

/// Where the skill went, and where the skill it replaced was moved.
#[derive(Debug, Clone, PartialEq, Eq)]
pub struct SkillInstallResult {
    pub path: String,
    pub backup_path: Option<String>,
}

/// Why the skill was not installed.
#[derive(Debug, Clone, PartialEq, Eq)]
pub enum SkillError {
    /// The skill exists and may not be overwritten.
    Exists(String),
}

/// The directory the skill goes to.
pub fn skill_target(skill_root: &str, windows: bool) -> (r: String)
    ensures
        r@ == join(skill_root@, "tali-agent"@, windows),
{
    join_path(skill_root, "tali-agent", windows)
}

/// Where an existing skill is moved before the new one is written: beside it, named
/// `tali-agent.bak-` and the time given (`%Y%m%d%H%M%S`).
pub fn skill_backup_path(skill_root: &str, stamp: &str, windows: bool) -> (r: String)
    ensures
        r@ == join(skill_root@, "tali-agent.bak-"@ + stamp@, windows),
{
    let name = cat("tali-agent.bak-", stamp);
    join_path(skill_root, name.as_str(), windows)
}

/// Whether installing moves an existing skill aside first: only when it exists, and only
/// when it may be overwritten; otherwise installing is refused.
pub fn skill_needs_backup(target: &str, target_exists: bool, overwrite: bool) -> (r: Result<bool, SkillError>)
    ensures
        target_exists && !overwrite ==> (r matches Err(SkillError::Exists(t)) && t@ == target@),
        target_exists && overwrite ==> r == Ok::<bool, SkillError>(true),
        !target_exists ==> r == Ok::<bool, SkillError>(false),
{
    if target_exists {
        if !overwrite {
            return Err(SkillError::Exists(target.to_owned()));
        }
        Ok(true)
    } else {
        Ok(false)
    }
}

/// The files of the skill, relative to its directory.
pub fn skill_files() -> (r: Vec<String>)
    ensures
        r@.map_values(|s: String| s@) == seq![
            "SKILL.md"@,
            "agents/openai.yaml"@,
            "references/manifest-authoring.md"@,
            "references/live-logs-and-repair.md"@,
        ],
{
    let mut out: Vec<String> = Vec::new();
    out.push("SKILL.md".to_owned());
    out.push("agents/openai.yaml".to_owned());
    out.push("references/manifest-authoring.md".to_owned());
    out.push("references/live-logs-and-repair.md".to_owned());
    proof {
        assert(out@.map_values(|s: String| s@) =~= seq![
            "SKILL.md"@,
            "agents/openai.yaml"@,
            "references/manifest-authoring.md"@,
            "references/live-logs-and-repair.md"@,
        ]);
    }
    out
}

} // verus!

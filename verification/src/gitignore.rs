//! Keeping private project manifests out of git: where a manifest lies, whether `.gitignore`
//! already ignores `.tali/`, and the block that makes it do so.
use vstd::prelude::*;
use crate::text::{chars_eq, chars_of, push_all, string_of, trim, trim_exec};
use crate::paths::{relative_components, relative_exec};

verus! {

/// How gitignore protection reacts when `.tali/` is not ignored: ask, or only print a notice.
#[derive(Debug, Clone, Copy, PartialEq, Eq)]
pub enum GitignoreAction {
    Prompt,
    NoticeOnly,
}

/// What gitignore protection did.
#[derive(Debug, Clone, PartialEq, Eq)]
pub enum GitignoreOutcome {
    NotProjectManifest,
    SharedManifest,
    NotGitRepository,
    AlreadyIgnored,
    Suppressed,
    NoticePrinted,
    Added,
    Skipped,
}

/// What the user answered to the offer.
#[derive(Debug, Clone, Copy, PartialEq, Eq)]
pub enum GitignoreChoice {
    Add,
    Never,
    Skip,
}

/// A line of `.gitignore` that ignores all of `.tali`: not blank, not a comment, not a
/// negation, and one of the six spellings.
pub open spec fn tali_ignore_pattern_spec(line: Seq<char>) -> bool {
    let l = trim(line);
    &&& l.len() > 0
    &&& l[0] != '#'
    &&& l[0] != '!'
    &&& (l == ".tali"@ || l == ".tali/"@ || l == ".tali/**"@ || l == "/.tali"@ || l == "/.tali/"@
        || l == "/.tali/**"@)
}

/// The lines that ignore the private `.tali` directory are, up to surrounding whitespace,
/// exactly `.tali`, `.tali/`, `.tali/**`, `/.tali`, `/.tali/` and `/.tali/**`; a `.gitignore`
/// with such a line ignores it.
pub proof fn lemma_tali_ignore_lines(line: Seq<char>, content: Seq<char>, i: int)
    ensures
        tali_ignore_pattern_spec(line) <==> (trim(line) == ".tali"@ || trim(line) == ".tali/"@ || trim(line)
            == ".tali/**"@ || trim(line) == "/.tali"@ || trim(line) == "/.tali/"@ || trim(line) == "/.tali/**"@),
        0 <= i < lines(content).len() && (trim(lines(content)[i]) == ".tali"@ || trim(lines(content)[i])
            == ".tali/"@ || trim(lines(content)[i]) == ".tali/**"@ || trim(lines(content)[i]) == "/.tali"@
            || trim(lines(content)[i]) == "/.tali/"@ || trim(lines(content)[i]) == "/.tali/**"@)
            ==> tali_ignored_spec(content),
{
    reveal_strlit(".tali");
    reveal_strlit(".tali/");
    reveal_strlit(".tali/**");
    reveal_strlit("/.tali");
    reveal_strlit("/.tali/");
    reveal_strlit("/.tali/**");
    if 0 <= i < lines(content).len() {
        let l = lines(content)[i];
        let t = trim(l);
        if t == ".tali"@ || t == ".tali/"@ || t == ".tali/**"@ || t == "/.tali"@ || t == "/.tali/"@ || t
            == "/.tali/**"@ {
            assert(t[0] == '.' || t[0] == '/');
            assert(tali_ignore_pattern_spec(l));
        }
    }
    let t = trim(line);
    if t == ".tali"@ || t == ".tali/"@ || t == ".tali/**"@ || t == "/.tali"@ || t == "/.tali/"@ || t
        == "/.tali/**"@ {
        assert(t[0] == '.' || t[0] == '/');
    }
}

fn same(a: &[char], lit: &str) -> (r: bool)
    ensures
        r == (a@ == lit@),
{
    chars_eq(a, &chars_of(lit))
}

/// Whether a `.gitignore` line ignores all of `.tali`.
pub fn is_tali_ignore_pattern(line: &str) -> (r: bool)
    ensures
        r == tali_ignore_pattern_spec(line@),
{
    let l = trim_exec(&chars_of(line));
    if l.len() == 0 || l[0] == '#' || l[0] == '!' {
        return false;
    }
    same(&l, ".tali") || same(&l, ".tali/") || same(&l, ".tali/**") || same(&l, "/.tali") || same(
        &l,
        "/.tali/",
    ) || same(&l, "/.tali/**")
}

/// The lines of a text as `str::lines` gives them: split at `\n`, a `\r` before it dropped,
/// and no empty last line after a final `\n`.
pub open spec fn lines_from(s: Seq<char>, k: int, cur: Seq<char>) -> Seq<Seq<char>>
    decreases s.len() - k,
{
    if k < 0 || k >= s.len() {
        if cur.len() > 0 {
            seq![cur]
        } else {
            Seq::empty()
        }
    } else if s[k] == '\n' {
        seq![strip_cr(cur)] + lines_from(s, k + 1, Seq::empty())
    } else {
        lines_from(s, k + 1, cur.push(s[k]))
    }
}

/// A line without its trailing `\r`.
pub open spec fn strip_cr(l: Seq<char>) -> Seq<char> {
    if l.len() > 0 && l.last() == '\r' {
        l.drop_last()
    } else {
        l
    }
}

pub open spec fn lines(s: Seq<char>) -> Seq<Seq<char>> {
    lines_from(s, 0, Seq::empty())
}

/// The content of a `.gitignore` ignores all of `.tali`.
pub open spec fn tali_ignored_spec(content: Seq<char>) -> bool {
    exists|i: int| 0 <= i < lines(content).len() && tali_ignore_pattern_spec(#[trigger] lines(content)[i])
}

fn strip_cr_exec(v: Vec<char>) -> (r: Vec<char>)
    ensures
        r@ == strip_cr(v@),
{
    let ghost before = v@;
    let mut v = v;
    if v.len() > 0 && v[v.len() - 1] == '\r' {
        v.pop();
        proof {
            assert(v@ =~= strip_cr(before));
        }
    }
    v
}

/// The lines of a text.
pub fn split_lines(content: &str) -> (r: Vec<String>)
    ensures
        r@.map_values(|l: String| l@) == lines(content@),
{
    let s = chars_of(content);
    let mut out: Vec<String> = Vec::new();
    let mut cur: Vec<char> = Vec::new();
    let mut k: usize = 0;
    while k < s.len()
        invariant
            s@ == content@,
            0 <= k <= s@.len(),
            lines(content@) == out@.map_values(|l: String| l@) + lines_from(s@, k as int, cur@),
        decreases s@.len() - k,
    {
        if s[k] == '\n' {
            let line = strip_cr_exec(cur);
            let ghost before = out@.map_values(|l: String| l@);
            out.push(string_of(&line));
            proof {
                assert(out@.map_values(|l: String| l@) =~= before.push(line@));
                assert(before + (seq![line@] + lines_from(s@, k + 1, Seq::empty())) =~= before.push(
                    line@,
                ) + lines_from(s@, k + 1, Seq::empty()));
            }
            cur = Vec::new();
            proof {
                assert(cur@ =~= Seq::<char>::empty());
            }
        } else {
            cur.push(s[k]);
        }
        k = k + 1;
    }
    if cur.len() > 0 {
        let ghost before = out@.map_values(|l: String| l@);
        out.push(string_of(&cur));
        proof {
            assert(out@.map_values(|l: String| l@) =~= before + seq![cur@]);
        }
    } else {
        proof {
            assert(out@.map_values(|l: String| l@) + Seq::<Seq<char>>::empty() =~= out@.map_values(
                |l: String| l@,
            ));
        }
    }
    out
}

/// Whether a `.gitignore` content ignores all of `.tali`.
pub fn tali_is_ignored(content: &str) -> (r: bool)
    ensures
        r == tali_ignored_spec(content@),
{
    let ls = split_lines(content);
    let ghost lv = ls@.map_values(|l: String| l@);
    let mut i: usize = 0;
    while i < ls.len()
        invariant
            0 <= i <= ls@.len(),
            lv == ls@.map_values(|l: String| l@),
            lv == lines(content@),
            forall|j: int| 0 <= j < i ==> !tali_ignore_pattern_spec(#[trigger] lv[j]),
        decreases ls@.len() - i,
    {
        assert(lv[i as int] == ls@[i as int]@);
        if is_tali_ignore_pattern(ls[i].as_str()) {
            return true;
        }
        i = i + 1;
    }
    false
}

/// The recommended block.
pub open spec fn ignore_block() -> Seq<char> {
    "# Tali private manifests and runtime files\n.tali/\n!.tali/share/\n!.tali/share/*.toml\n"@
}

/// What appending the recommended block writes after `existing` (`None` when there is no
/// `.gitignore`): a newline when the content does not end a line, a blank line, then the
/// block.
pub open spec fn ignore_block_addition(existing: Option<Seq<char>>) -> Seq<char> {
    let lead = match existing {
        Some(c) => c.len() > 0 && c.last() != '\n',
        None => false,
    };
    if lead {
        seq!['\n', '\n'] + ignore_block()
    } else {
        seq!['\n'] + ignore_block()
    }
}

pub open spec fn opt_chars(o: Option<&str>) -> Option<Seq<char>> {
    match o {
        Some(s) => Some(s@),
        None => None,
    }
}

/// The text to append to a `.gitignore` whose content is `existing`.
pub fn ignore_block_to_append(existing: Option<&str>) -> (r: String)
    ensures
        r@ == ignore_block_addition(opt_chars(existing)),
{
    let lead = match existing {
        Some(c) => {
            let v = chars_of(c);
            v.len() > 0 && v[v.len() - 1] != '\n'
        },
        None => false,
    };
    let mut out: Vec<char> = Vec::new();
    if lead {
        out.push('\n');
    }
    out.push('\n');
    push_all(&mut out, &chars_of("# Tali private manifests and runtime files\n.tali/\n!.tali/share/\n!.tali/share/*.toml\n"));
    proof {
        if lead {
            assert(out@ =~= seq!['\n', '\n'] + ignore_block());
        } else {
            assert(out@ =~= seq!['\n'] + ignore_block());
        }
    }
    string_of(&out)
}

/// How an answer to the offer reads: `y` or `yes` adds the block, `never` stops asking for the
/// repository, anything else skips; case and surrounding whitespace do not matter.
pub open spec fn choice_of(answer: Seq<char>) -> GitignoreChoice {
    let a = crate::text::ascii_lowercase(trim(answer));
    if a == "y"@ || a == "yes"@ {
        GitignoreChoice::Add
    } else if a == "never"@ {
        GitignoreChoice::Never
    } else {
        GitignoreChoice::Skip
    }
}

/// What an answer to the offer chooses.
pub fn read_choice(answer: &str) -> (r: GitignoreChoice)
    ensures
        r == choice_of(answer@),
{
    let a = crate::text::ascii_lowercase_exec(&trim_exec(&chars_of(answer)));
    if same(&a, "y") || same(&a, "yes") {
        GitignoreChoice::Add
    } else if same(&a, "never") {
        GitignoreChoice::Never
    } else {
        GitignoreChoice::Skip
    }
}

/// The outcome that an answer leads to.
pub fn choice_outcome(choice: GitignoreChoice) -> (r: GitignoreOutcome)
    ensures
        choice == GitignoreChoice::Add ==> r == GitignoreOutcome::Added,
        choice == GitignoreChoice::Never ==> r == GitignoreOutcome::Suppressed,
        choice == GitignoreChoice::Skip ==> r == GitignoreOutcome::Skipped,
{
    match choice {
        GitignoreChoice::Add => GitignoreOutcome::Added,
        GitignoreChoice::Never => GitignoreOutcome::Suppressed,
        GitignoreChoice::Skip => GitignoreOutcome::Skipped,
    }
}

/// A run `s[j..q]` without a newline, ended by the newline at `q`, closes the line under way.
proof fn lemma_line_run(s: Seq<char>, j: int, cur: Seq<char>, q: int)
    requires
        0 <= j <= q < s.len(),
        s[q] == '\n',
        forall|t: int| j <= t < q ==> s[t] != '\n',
    ensures
        lines_from(s, j, cur) == seq![strip_cr(cur + s.subrange(j, q))] + lines_from(
            s,
            q + 1,
            Seq::empty(),
        ),
    decreases q - j,
{
    if j == q {
        assert(cur + s.subrange(j, q) =~= cur);
    } else {
        lemma_line_run(s, j + 1, cur.push(s[j]), q);
        assert(cur.push(s[j]) + s.subrange(j + 1, q) =~= cur + s.subrange(j, q));
    }
}

/// The text between two newlines at `p` and `q` is one of the lines, when it does not end in
/// `\r`; the result is its index.
proof fn lemma_line_between(s: Seq<char>, k: int, cur: Seq<char>, p: int, q: int) -> (i: int)
    requires
        0 <= k <= p < q < s.len(),
        s[p] == '\n',
        s[q] == '\n',
        forall|t: int| p < t < q ==> s[t] != '\n',
        q == p + 1 || s[q - 1] != '\r',
    ensures
        0 <= i < lines_from(s, k, cur).len(),
        lines_from(s, k, cur)[i] == s.subrange(p + 1, q),
    decreases p - k,
{
    if k == p {
        lemma_line_run(s, p + 1, Seq::empty(), q);
        assert(Seq::<char>::empty() + s.subrange(p + 1, q) =~= s.subrange(p + 1, q));
        1
    } else if s[k] == '\n' {
        let i = lemma_line_between(s, k + 1, Seq::empty(), p, q);
        i + 1
    } else {
        lemma_line_between(s, k + 1, cur.push(s[k]), p, q)
    }
}

/// Appending the recommended block makes `.gitignore` ignore `.tali/`: whatever it held before
/// (`None` when there was no file), the content after the append is recognized as ignoring it.
pub proof fn lemma_appended_block_is_ignored(existing: Option<Seq<char>>)
    ensures
        tali_ignored_spec(
            match existing {
                Some(c) => c,
                None => Seq::empty(),
            } + ignore_block_addition(existing),
        ),
{
    let base = match existing {
        Some(c) => c,
        None => Seq::<char>::empty(),
    };
    let add = ignore_block_addition(existing);
    let s = base + add;
    reveal_strlit("# Tali private manifests and runtime files\n.tali/\n!.tali/share/\n!.tali/share/*.toml\n");
    reveal_strlit(".tali/");
    let blk = ignore_block();
    assert(blk.len() == 84);
    let lead: int = if match existing {
        Some(c) => c.len() > 0 && c.last() != '\n',
        None => false,
    } {
        2
    } else {
        1
    };
    assert(add =~= Seq::new(lead as nat, |i: int| '\n') + blk);
    let o = base.len() + lead;
    let p = o + 42;
    let q = o + 49;
    assert(s[p] == blk[42]);
    assert(s[q] == blk[49]);
    assert forall|t: int| p < t < q implies s[t] != '\n' by {
        assert(s[t] == blk[t - o]);
    }
    assert(s[q - 1] == blk[48]);
    let i = lemma_line_between(s, 0, Seq::empty(), p, q);
    let l = s.subrange(p + 1, q);
    assert(l =~= ".tali/"@) by {
        assert forall|t: int| 0 <= t < 6 implies l[t] == ".tali/"@[t] by {
            assert(l[t] == blk[43 + t]);
        }
    }
    crate::text::lemma_trim_plain(l);
    assert(tali_ignore_pattern_spec(lines(s)[i]));
}

/// The private `.tali` directory that holds a manifest at `path` of the project at `root`: the
/// manifest lies under `root/.tali` but not under `root/.tali/share`.
pub open spec fn private_root_spec(path: Seq<char>, root: Seq<char>, windows: bool) -> Option<Seq<char>> {
    match relative_components(path, root, windows) {
        Some(rel) => if rel.len() >= 1 && rel[0] == ".tali"@ && !(rel.len() >= 2 && rel[1]
            == "share"@) {
            Some(crate::paths::join(root, ".tali"@, windows))
        } else {
            None
        },
        None => None,
    }
}

/// A manifest at `path` lies under `root/.tali/share`.
pub open spec fn shared_spec(path: Seq<char>, root: Seq<char>, windows: bool) -> bool {
    match relative_components(path, root, windows) {
        Some(rel) => rel.len() >= 2 && rel[0] == ".tali"@ && rel[1] == "share"@,
        None => false,
    }
}

/// The private `.tali` directory holding the manifest at `path` of the project at
/// `project_root`, if it lies there and not under `.tali/share`.
pub fn private_tali_manifest_root(path: &str, project_root: &str, windows: bool) -> (r: Option<String>)
    ensures
        match r {
            Some(d) => private_root_spec(path@, project_root@, windows) == Some(d@),
            None => private_root_spec(path@, project_root@, windows) is None,
        },
{
    match relative_exec(path, project_root, windows) {
        Some(rel) => {
            if rel.len() >= 1 && same(&rel[0], ".tali") && !(rel.len() >= 2 && same(&rel[1], "share")) {
                Some(crate::paths::join_path(project_root, ".tali", windows))
            } else {
                None
            }
        },
        None => None,
    }
}

/// Whether the manifest at `path` is a shared one of the project at `project_root`, under
/// `.tali/share`.
pub fn shared_tali_manifest(path: &str, project_root: &str, windows: bool) -> (r: bool)
    ensures
        r == shared_spec(path@, project_root@, windows),
{
    match relative_exec(path, project_root, windows) {
        Some(rel) => rel.len() >= 2 && same(&rel[0], ".tali") && same(&rel[1], "share"),
        None => false,
    }
}

/// What gitignore protection does next, from what is known of the manifest and the repository.
#[derive(Debug, Clone, PartialEq, Eq)]
pub enum GitignoreStep {
    /// Protection ends with this outcome.
    Finish(GitignoreOutcome),
    /// Print the notice; the outcome is `NoticePrinted`.
    PrintNotice,
    /// Ask the user; `read_choice` and `choice_outcome` give the outcome.
    AskUser,
}

/// The order of gitignore protection: a manifest outside the private `.tali` directory ends it (as shared
/// or not a project manifest), then a project outside git, then a repository for which the
/// user said never, then a `.gitignore` that already ignores `.tali/`; otherwise the action
/// decides.
pub fn gitignore_step(
    is_private: bool,
    is_shared: bool,
    in_git_repository: bool,
    suppressed: bool,
    already_ignored: bool,
    action: GitignoreAction,
) -> (r: GitignoreStep)
    ensures
        !is_private && is_shared ==> r == GitignoreStep::Finish(GitignoreOutcome::SharedManifest),
        !is_private && !is_shared ==> r == GitignoreStep::Finish(GitignoreOutcome::NotProjectManifest),
        is_private && !in_git_repository ==> r == GitignoreStep::Finish(GitignoreOutcome::NotGitRepository),
        is_private && in_git_repository && suppressed ==> r == GitignoreStep::Finish(GitignoreOutcome::Suppressed),
        is_private && in_git_repository && !suppressed && already_ignored ==> r == GitignoreStep::Finish(
            GitignoreOutcome::AlreadyIgnored,
        ),
        is_private && in_git_repository && !suppressed && !already_ignored ==> r == (match action {
            GitignoreAction::NoticeOnly => GitignoreStep::PrintNotice,
            GitignoreAction::Prompt => GitignoreStep::AskUser,
        }),
{
    if !is_private {
        if is_shared {
            return GitignoreStep::Finish(GitignoreOutcome::SharedManifest);
        }
        return GitignoreStep::Finish(GitignoreOutcome::NotProjectManifest);
    }
    if !in_git_repository {
        return GitignoreStep::Finish(GitignoreOutcome::NotGitRepository);
    }
    if suppressed {
        return GitignoreStep::Finish(GitignoreOutcome::Suppressed);
    }
    if already_ignored {
        return GitignoreStep::Finish(GitignoreOutcome::AlreadyIgnored);
    }
    match action {
        GitignoreAction::NoticeOnly => GitignoreStep::PrintNotice,
        GitignoreAction::Prompt => GitignoreStep::AskUser,
    }
}

/// The notice shown when private manifests in `tali_dir` are not ignored by git, ending with
/// the recommended block, line by line.
pub fn notice_lines(tali_dir: &str) -> (r: Vec<String>)
    ensures
        r@.map_values(|s: String| s@) == seq![
            Seq::<char>::empty(),
            "Note: "@ + tali_dir@ + " is not ignored by git."@,
            "Private Tali manifests may contain local paths or workflow details."@,
            "To ignore private manifests while allowing shared manifests, add:"@,
            Seq::<char>::empty(),
            "# Tali private manifests and runtime files"@,
            ".tali/"@,
            "!.tali/share/"@,
            "!.tali/share/*.toml"@,
        ],
{
    let mut out: Vec<String> = Vec::new();
    out.push(String::new());
    let a = crate::text::cat("Note: ", tali_dir);
    out.push(crate::text::cat(a.as_str(), " is not ignored by git."));
    out.push("Private Tali manifests may contain local paths or workflow details.".to_owned());
    out.push("To ignore private manifests while allowing shared manifests, add:".to_owned());
    out.push(String::new());
    out.push("# Tali private manifests and runtime files".to_owned());
    out.push(".tali/".to_owned());
    out.push("!.tali/share/".to_owned());
    out.push("!.tali/share/*.toml".to_owned());
    proof {
        assert(out@.map_values(|s: String| s@) =~= seq![
            Seq::<char>::empty(),
            "Note: "@ + tali_dir@ + " is not ignored by git."@,
            "Private Tali manifests may contain local paths or workflow details."@,
            "To ignore private manifests while allowing shared manifests, add:"@,
            Seq::<char>::empty(),
            "# Tali private manifests and runtime files"@,
            ".tali/"@,
            "!.tali/share/"@,
            "!.tali/share/*.toml"@,
        ]);
    }
    out
}

/// The lines that offer to add the block for private manifests in `tali_dir`; the question
/// itself, `Add recommended ignore block to .gitignore? [y/N/never] `, follows on the last line
/// without a line end.
pub fn prompt_lines(tali_dir: &str) -> (r: Vec<String>)
    ensures
        r@.map_values(|s: String| s@) == seq![
            Seq::<char>::empty(),
            "Tali notice:"@,
            tali_dir@ + " is not ignored by git in this repository."@,
            Seq::<char>::empty(),
            "Private Tali manifests may contain local paths or workflow details."@,
        ],
{
    let mut out: Vec<String> = Vec::new();
    out.push(String::new());
    out.push("Tali notice:".to_owned());
    out.push(crate::text::cat(tali_dir, " is not ignored by git in this repository."));
    out.push(String::new());
    out.push("Private Tali manifests may contain local paths or workflow details.".to_owned());
    proof {
        assert(out@.map_values(|s: String| s@) =~= seq![
            Seq::<char>::empty(),
            "Tali notice:"@,
            tali_dir@ + " is not ignored by git in this repository."@,
            Seq::<char>::empty(),
            "Private Tali manifests may contain local paths or workflow details."@,
        ]);
    }
    out
}

/// The git repository of a project: the first of its directory and that directory's
/// ancestors, nearest first, that holds `.git`; each given with whether it does.
pub fn find_git_root(ancestors: &[(String, bool)]) -> (r: Option<String>)
    ensures
        match r {
            Some(p) => exists|i: int|
                0 <= i < ancestors@.len() && (#[trigger] ancestors@[i]).1 && ancestors@[i].0@ == p@
                    && forall|j: int| 0 <= j < i ==> !(#[trigger] ancestors@[j]).1,
            None => forall|i: int| 0 <= i < ancestors@.len() ==> !(#[trigger] ancestors@[i]).1,
        },
{
    crate::safety::nearest_existing_path(ancestors)
}

} // verus!

//! The data directory: where manifests, runs, logs, caches and secrets live, and the index of
//! global manifests with their short IDs.
use vstd::prelude::*;
use crate::numbers::{allocate_next_id, max_numeric_id, next_id_spec, parse_u32, strs_view};
use crate::paths::{join, join_path};
use crate::text::{char_is_alnum, chars_eq, chars_of, is_alnum, push_all, string_of, trim, trim_exec};

verus! {

/// The data directory of tali.
#[derive(Debug, Clone, PartialEq, Eq)]
pub struct Store {
    data_dir: String,
    windows: bool,
}

/// What the manifest index records of a global manifest and the logic reads.
#[derive(Debug, Clone, PartialEq, Eq)]
pub struct ManifestEntry {
    pub id: String,
    pub name: String,
    pub filename: String,
}

/// Why a manifest could not be added.
#[derive(Debug, Clone, PartialEq, Eq)]
pub enum StoreError {
    /// A global manifest of this name exists.
    DuplicateName(String),
}

pub open spec fn lit_manifests() -> Seq<char> {
    seq!['m', 'a', 'n', 'i', 'f', 'e', 's', 't', 's']
}

impl Store {
    pub closed spec fn dir(&self) -> Seq<char> {
        self.data_dir@
    }

    /// Whether paths under the store follow the rules of Windows.
    pub closed spec fn on_windows(&self) -> bool {
        self.windows
    }

    /// The store rooted at `data_dir`, its paths joined by the rules of Windows when `windows`
    /// holds.  Creating its directories is the caller's part.
    pub fn from_data_dir(data_dir: String, windows: bool) -> (r: Store)
        ensures
            r.dir() == data_dir@,
            r.on_windows() == windows,
    {
        Store { data_dir, windows }
    }

    /// The data directory.
    pub fn data_dir(&self) -> (r: &str)
        ensures
            r@ == self.dir(),
    {
        self.data_dir.as_str()
    }

    pub fn manifests_dir(&self) -> (r: String)
        ensures
            r@ == join(self.dir(), "manifests"@, self.on_windows()),
    {
        join_path(self.data_dir.as_str(), "manifests", self.windows)
    }

    pub fn runs_dir(&self) -> (r: String)
        ensures
            r@ == join(self.dir(), "runs"@, self.on_windows()),
    {
        join_path(self.data_dir.as_str(), "runs", self.windows)
    }

    pub fn logs_dir(&self) -> (r: String)
        ensures
            r@ == join(self.dir(), "logs"@, self.on_windows()),
    {
        join_path(self.data_dir.as_str(), "logs", self.windows)
    }

    pub fn cache_dir(&self) -> (r: String)
        ensures
            r@ == join(self.dir(), "cache"@, self.on_windows()),
    {
        join_path(self.data_dir.as_str(), "cache", self.windows)
    }

    pub fn secrets_dir(&self) -> (r: String)
        ensures
            r@ == join(self.dir(), "secrets"@, self.on_windows()),
    {
        join_path(self.data_dir.as_str(), "secrets", self.windows)
    }

    /// The directories the store needs, in the order they are created.
    pub fn layout_dirs(&self) -> (r: Vec<String>)
        ensures
            r@.len() == 5,
            r@[0]@ == join(self.dir(), "manifests"@, self.on_windows()),
            r@[1]@ == join(self.dir(), "runs"@, self.on_windows()),
            r@[2]@ == join(self.dir(), "logs"@, self.on_windows()),
            r@[3]@ == join(self.dir(), "cache"@, self.on_windows()),
            r@[4]@ == join(self.dir(), "secrets"@, self.on_windows()),
    {
        let mut r: Vec<String> = Vec::new();
        r.push(self.manifests_dir());
        r.push(self.runs_dir());
        r.push(self.logs_dir());
        r.push(self.cache_dir());
        r.push(self.secrets_dir());
        r
    }

    /// The directory of a run.
    pub fn run_dir(&self, run_id: &str) -> (r: String)
        ensures
            r@ == join(join(self.dir(), "runs"@, self.on_windows()), run_id@, self.on_windows()),
    {
        let runs = self.runs_dir();
        join_path(runs.as_str(), run_id, self.windows)
    }

    /// The manifest index file.
    pub fn index_path(&self) -> (r: String)
        ensures
            r@ == join(join(self.dir(), "manifests"@, self.on_windows()), "index.json"@, self.on_windows()),
    {
        let dir = self.manifests_dir();
        join_path(dir.as_str(), "index.json", self.windows)
    }

    /// The pointer file to the latest run.
    pub fn latest_pointer_path(&self) -> (r: String)
        ensures
            r@ == join(join(self.dir(), "logs"@, self.on_windows()), "latest"@, self.on_windows()),
    {
        let dir = self.logs_dir();
        join_path(dir.as_str(), "latest", self.windows)
    }

    /// The pointer file to the run in progress.
    pub fn latest_running_pointer_path(&self) -> (r: String)
        ensures
            r@ == join(join(self.dir(), "logs"@, self.on_windows()), "latest-running"@, self.on_windows()),
    {
        let dir = self.logs_dir();
        join_path(dir.as_str(), "latest-running", self.windows)
    }
}

/// A character that a manifest file name keeps.
pub open spec fn filename_char_ok(c: char) -> bool {
    is_alnum(c) || c == '-' || c == '_'
}

/// Each character that a file name may not hold becomes `-`.
pub open spec fn sanitize_map(s: Seq<char>) -> Seq<char> {
    Seq::new(s.len(), |i: int| if filename_char_ok(s[i]) { s[i] } else { '-' })
}

pub open spec fn dash_pred() -> spec_fn(char) -> bool {
    |c: char| c == '-'
}

/// A manifest name made fit for a file name: other characters become `-`, then the `-`s at
/// either end are dropped.
pub open spec fn sanitize_filename_spec(s: Seq<char>) -> Seq<char> {
    crate::text::trim_by(sanitize_map(s), dash_pred())
}

/// A manifest name made fit for a file name.
pub fn sanitize_filename(name: &str) -> (r: String)
    ensures
        r@ == sanitize_filename_spec(name@),
{
    let v = chars_of(name);
    let mut m: Vec<char> = Vec::new();
    let mut i: usize = 0;
    while i < v.len()
        invariant
            0 <= i <= v@.len(),
            m@ == sanitize_map(v@).take(i as int),
        decreases v@.len() - i,
    {
        let c = v[i];
        if char_is_alnum(c) || c == '-' || c == '_' {
            m.push(c);
        } else {
            m.push('-');
        }
        i = i + 1;
        proof {
            assert(m@ =~= sanitize_map(v@).take(i as int));
        }
    }
    proof {
        assert(m@ =~= sanitize_map(v@));
    }
    let mut a: usize = 0;
    while a < m.len() && m[a] == '-'
        invariant
            0 <= a <= m@.len(),
            crate::text::skip_while(m@, dash_pred(), 0) == crate::text::skip_while(
                m@,
                dash_pred(),
                a as int,
            ),
        decreases m@.len() - a,
    {
        a = a + 1;
    }
    let t = crate::text::slice_copy(&m, a, m.len());
    let mut b: usize = t.len();
    while b > 0 && t[b - 1] == '-'
        invariant
            0 <= b <= t@.len(),
            crate::text::skip_back_while(t@, dash_pred(), t@.len() as int)
                == crate::text::skip_back_while(t@, dash_pred(), b as int),
        decreases b,
    {
        b = b - 1;
    }
    string_of(&crate::text::slice_copy(&t, 0, b))
}

/// A sanitized name holds only ASCII letters, digits, `-` and `_`, and neither starts nor ends
/// with `-`.
pub proof fn lemma_sanitized_name_is_clean(s: Seq<char>)
    ensures
        forall|i: int|
            0 <= i < sanitize_filename_spec(s).len() ==> filename_char_ok(
                #[trigger] sanitize_filename_spec(s)[i],
            ),
        sanitize_filename_spec(s).len() > 0 ==> sanitize_filename_spec(s)[0] != '-'
            && sanitize_filename_spec(s).last() != '-',
{
    let m = sanitize_map(s);
    crate::text::lemma_skip_while(m, dash_pred(), 0);
    let a = crate::text::skip_while(m, dash_pred(), 0);
    let t = m.skip(a);
    crate::text::lemma_skip_back_while(t, dash_pred(), t.len() as int);
    let b = crate::text::skip_back_while(t, dash_pred(), t.len() as int);
    let r = t.take(b);
    assert(r == sanitize_filename_spec(s));
    assert forall|i: int| 0 <= i < r.len() implies filename_char_ok(#[trigger] r[i]) by {
        assert(r[i] == m[a + i]);
    }
    if r.len() > 0 {
        assert(r[0] == t[0]);
        assert(!dash_pred()(t[0]));
        assert(r.last() == t[b - 1]);
        assert(!dash_pred()(t[b - 1]));
    }
}

pub open spec fn entry_ids(entries: Seq<ManifestEntry>) -> Seq<Seq<char>> {
    entries.map_values(|e: ManifestEntry| e.id@)
}

/// Some entry has this name.
pub open spec fn name_taken(entries: Seq<ManifestEntry>, name: Seq<char>) -> bool {
    exists|i: int| 0 <= i < entries.len() && #[trigger] entries[i].name@ == name
}

/// The file name of a new global manifest.
pub open spec fn manifest_filename(id: Seq<char>, name: Seq<char>) -> Seq<char> {
    id + seq!['-'] + sanitize_filename_spec(name) + seq!['.', 't', 'o', 'm', 'l']
}

/// The largest numeric ID of the index, for the caller to check that another fits.
pub fn max_entry_id(entries: &[ManifestEntry]) -> (r: u32)
    ensures
        r == max_numeric_id(entry_ids(entries@)),
{
    let ghost ids = entry_ids(entries@);
    let mut max: u32 = 0;
    let mut i: usize = 0;
    proof {
        assert(ids.take(0) =~= Seq::<Seq<char>>::empty());
    }
    while i < entries.len()
        invariant
            0 <= i <= entries@.len(),
            ids == entry_ids(entries@),
            max == max_numeric_id(ids.take(i as int)),
        decreases entries@.len() - i,
    {
        let parsed = parse_u32(entries[i].id.as_str());
        proof {
            assert(ids.take(i + 1).drop_last() =~= ids.take(i as int));
            assert(ids.take(i + 1).last() == entries@[i as int].id@);
        }
        match parsed {
            Some(n) => {
                if n > max {
                    max = n;
                }
            },
            None => {},
        }
        i = i + 1;
    }
    proof {
        assert(ids.take(i as int) =~= ids);
    }
    max
}

/// The ID and file name of a new global manifest named `name`; refused when a global
/// manifest of this name exists.  The largest numeric ID must leave room for one more.
pub fn plan_new_entry(entries: &[ManifestEntry], name: &str) -> (r: Result<
    (String, String),
    StoreError,
>)
    requires
        max_numeric_id(entry_ids(entries@)) < u32::MAX,
    ensures
        name_taken(entries@, name@) <==> r is Err,
        r matches Err(StoreError::DuplicateName(n)) ==> n@ == name@,
        r matches Ok((id, file)) ==> id@ == next_id_spec(entry_ids(entries@)) && file@
            == manifest_filename(id@, name@),
{
    let wanted = chars_of(name);
    let mut i: usize = 0;
    while i < entries.len()
        invariant
            0 <= i <= entries@.len(),
            wanted@ == name@,
            forall|j: int| 0 <= j < i ==> #[trigger] entries@[j].name@ != name@,
        decreases entries@.len() - i,
    {
        let n = chars_of(entries[i].name.as_str());
        if chars_eq(&n, &wanted) {
            proof {
                assert(entries@[i as int].name@ == name@);
            }
            return Err(StoreError::DuplicateName(string_of(&wanted)));
        }
        i = i + 1;
    }
    let mut ids: Vec<&str> = Vec::new();
    let mut k: usize = 0;
    while k < entries.len()
        invariant
            0 <= k <= entries@.len(),
            strs_view(ids@) == entry_ids(entries@).take(k as int),
        decreases entries@.len() - k,
    {
        let ghost before = ids@;
        let id_str = entries[k].id.as_str();
        ids.push(id_str);
        proof {
            assert(strs_view(ids@) =~= strs_view(before).push(id_str@));
            assert(entry_ids(entries@).take(k + 1) =~= entry_ids(entries@).take(k as int).push(
                entries@[k as int].id@,
            ));
        }
        k = k + 1;
    }
    proof {
        assert(entry_ids(entries@).take(k as int) =~= entry_ids(entries@));
    }
    let id = allocate_next_id(&ids);
    let clean = sanitize_filename(name);
    let mut f: Vec<char> = chars_of(id.as_str());
    f.push('-');
    push_all(&mut f, &chars_of(clean.as_str()));
    f.push('.');
    f.push('t');
    f.push('o');
    f.push('m');
    f.push('l');
    proof {
        assert(f@ =~= manifest_filename(id@, name@));
    }
    Ok((id, string_of(&f)))
}

/// The first entry whose ID or name is `selector`.
pub open spec fn global_match(entries: Seq<ManifestEntry>, selector: Seq<char>, i: int) -> bool {
    entries[i].id@ == selector || entries[i].name@ == selector
}

/// The position of the first global manifest whose ID or name is `selector`.
pub fn find_global(entries: &[ManifestEntry], selector: &str) -> (r: Option<usize>)
    ensures
        r matches Some(i) ==> i < entries@.len() && global_match(entries@, selector@, i as int)
            && forall|j: int| 0 <= j < i ==> !global_match(entries@, selector@, j),
        r is None ==> forall|j: int|
            0 <= j < entries@.len() ==> !global_match(entries@, selector@, j),
{
    let sel = chars_of(selector);
    let mut i: usize = 0;
    while i < entries.len()
        invariant
            0 <= i <= entries@.len(),
            sel@ == selector@,
            forall|j: int| 0 <= j < i ==> !global_match(entries@, selector@, j),
        decreases entries@.len() - i,
    {
        let id = chars_of(entries[i].id.as_str());
        let name = chars_of(entries[i].name.as_str());
        if chars_eq(&id, &sel) || chars_eq(&name, &sel) {
            return Some(i);
        }
        i = i + 1;
    }
    None
}

/// The two places of a project manifest named `selector` in `dir`, private first, then shared.
pub fn project_manifest_candidates(dir: &str, selector: &str, windows: bool) -> (r: (String, String))
    ensures
        r.0@ == join(join(dir@, ".tali"@, windows), selector@ + ".toml"@, windows),
        r.1@ == join(join(join(dir@, ".tali"@, windows), "share"@, windows), selector@ + ".toml"@, windows),
{
    let tali = join_path(dir, ".tali", windows);
    let share = join_path(tali.as_str(), "share", windows);
    let mut file = chars_of(selector);
    push_all(&mut file, &chars_of(".toml"));
    let file = string_of(&file);
    (join_path(tali.as_str(), file.as_str(), windows), join_path(share.as_str(), file.as_str(), windows))
}

/// The run ID a pointer file holds: its content without surrounding whitespace.
pub fn pointer_run_id(content: &str) -> (r: String)
    ensures
        r@ == trim(content@),
{
    string_of(&trim_exec(&chars_of(content)))
}

/// The run ID a pointer to the run in progress holds, if it holds one.
pub fn running_pointer_run_id(content: &str) -> (r: Option<String>)
    ensures
        trim(content@).len() == 0 ==> r is None,
        trim(content@).len() > 0 ==> (r matches Some(s) && s@ == trim(content@)),
{
    let t = trim_exec(&chars_of(content));
    if t.len() == 0 {
        None
    } else {
        Some(string_of(&t))
    }
}

/// Whether the pointer to the run in progress names `run_id`, so that finishing that run
/// removes it.
pub fn pointer_names_run(content: &str, run_id: &str) -> (r: bool)
    ensures
        r == (trim(content@) == run_id@),
{
    let t = trim_exec(&chars_of(content));
    chars_eq(&t, &chars_of(run_id))
}

/// Index entries are listed in order of their IDs.
pub open spec fn ids_sorted(entries: Seq<ManifestEntry>) -> bool {
    forall|i: int, j: int|
        0 <= i < j < entries.len() ==> !crate::cleanup::text_lt(#[trigger] entries[j].id@, #[trigger] entries[i].id@)
}

/// The entries in order of their IDs, as `str` orders them: the same entries, sorted.
#[verifier::spinoff_prover]
pub fn sort_entries_by_id(entries: Vec<ManifestEntry>) -> (r: Vec<ManifestEntry>)
    ensures
        ids_sorted(r@),
        r@.to_multiset() == entries@.to_multiset(),
{
    let ghost input = entries@;
    let mut out: Vec<ManifestEntry> = Vec::new();
    let mut rest = entries;
    let ghost mut taken: Seq<ManifestEntry> = Seq::empty();
    proof {
        assert(taken + rest@ =~= input);
    }
    while rest.len() > 0
        invariant
            ids_sorted(out@),
            out@.to_multiset() == taken.to_multiset(),
            taken + rest@ == input,
        decreases rest@.len(),
    {
        let ghost before_rest = rest@;
        let e = rest.remove(0);
        proof {
            assert(rest@ =~= before_rest.drop_first());
        }
        let ghost ov = out@;
        let key = chars_of(e.id.as_str());
        let mut p: usize = 0;
        while p < out.len() && !crate::cleanup::text_before(&key, &chars_of(out[p].id.as_str()))
            invariant
                0 <= p <= out@.len(),
                ov == out@,
                key@ == e.id@,
                forall|k: int| 0 <= k < p ==> !crate::cleanup::text_lt(e.id@, #[trigger] ov[k].id@),
            decreases out@.len() - p,
        {
            p = p + 1;
        }
        proof {
            assert forall|k: int| p <= k < ov.len() implies !crate::cleanup::text_lt(#[trigger] ov[k].id@, e.id@) by {
                assert(crate::cleanup::text_lt(e.id@, ov[p as int].id@));
                if crate::cleanup::text_lt(ov[k].id@, e.id@) {
                    crate::cleanup::lemma_text_lt_transitive(ov[k].id@, e.id@, ov[p as int].id@);
                    if k == p {
                        crate::cleanup::lemma_text_lt_irreflexive(ov[k].id@);
                    }
                    assert(!crate::cleanup::text_lt(ov[k].id@, ov[p as int].id@));
                }
            }
        }
        out.insert(p, e);
        proof {
            let nv = out@;
            assert forall|i: int, j: int| 0 <= i < j < nv.len() implies !crate::cleanup::text_lt(
                #[trigger] nv[j].id@,
                #[trigger] nv[i].id@,
            ) by {
                if i < p && j < p {
                    assert(nv[i] == ov[i] && nv[j] == ov[j]);
                } else if i < p && j == p {
                    assert(nv[i] == ov[i]);
                } else if i < p {
                    assert(nv[i] == ov[i] && nv[j] == ov[j - 1]);
                } else if i == p {
                    assert(nv[j] == ov[j - 1]);
                } else {
                    assert(nv[i] == ov[i - 1] && nv[j] == ov[j - 1]);
                }
            }
            let old_taken = taken;
            taken = taken.push(before_rest[0]);
            assert(taken + rest@ =~= input);
            vstd::seq_lib::to_multiset_build(old_taken, before_rest[0]);
            vstd::seq_lib::to_multiset_insert(ov, p as int, before_rest[0]);
            assert(taken.to_multiset() == old_taken.to_multiset().insert(before_rest[0]));
        }
    }
    proof {
        assert(taken =~= input);
    }
    out
}

/// The long ID of a new global manifest: the time it was added (`%Y%m%d%H%M%S`), `-`, and
/// sixteen random ASCII letters and digits.
pub fn generate_long_id(added: &str) -> (r: String)
    ensures
        r@.len() == added@.len() + 1 + 16,
        r@.take(added@.len() + 1 as int) == added@ + "-"@,
        forall|i: int| added@.len() + 1 <= i < r@.len() ==> crate::runner::ascii_alnum(#[trigger] r@[i]),
{
    let random = crate::runner::random_alphanumeric(16);
    let a = crate::text::cat(added, "-");
    let r = crate::text::cat(a.as_str(), random.as_str());
    proof {
        reveal_strlit("-");
        assert(r@.take(added@.len() + 1 as int) =~= a@);
        assert forall|i: int| added@.len() + 1 <= i < r@.len() implies crate::runner::ascii_alnum(#[trigger] r@[i]) by {
            assert(r@[i] == random@[i - (added@.len() + 1)]);
        }
    }
    r
}

/// The path of the manifest named `selector` at level `level`: its private one when that exists,
/// its shared one otherwise.
pub open spec fn level_manifest(level: (String, bool, bool), selector: Seq<char>, windows: bool) -> Seq<char> {
    if level.1 {
        join(join(level.0@, ".tali"@, windows), selector + ".toml"@, windows)
    } else {
        join(join(join(level.0@, ".tali"@, windows), "share"@, windows), selector + ".toml"@, windows)
    }
}

/// The first level, nearest first, that holds the manifest is at `root`, and `path` is its
/// manifest there.
pub open spec fn project_found(
    levels: Seq<(String, bool, bool)>,
    selector: Seq<char>,
    windows: bool,
    root: Seq<char>,
    path: Seq<char>,
) -> bool {
    exists|i: int|
        0 <= i < levels.len() && ((#[trigger] levels[i]).1 || levels[i].2) && root == levels[i].0@
            && path == level_manifest(levels[i], selector, windows) && forall|j: int|
            0 <= j < i ==> !(#[trigger] levels[j]).1 && !levels[j].2
}

/// No level holds the manifest.
pub open spec fn no_project(levels: Seq<(String, bool, bool)>) -> bool {
    forall|i: int| 0 <= i < levels.len() ==> !(#[trigger] levels[i]).1 && !levels[i].2
}

/// The project manifest named by a selector, looking from the current directory up: the
/// first directory, nearest first, where it exists, with its private manifest when that
/// exists and its shared one otherwise. Each level gives a directory and whether its private
/// and its shared candidate exist.
pub fn find_project_manifest(levels: &[(String, bool, bool)], selector: &str, windows: bool) -> (r: Option<(String, String)>)
    ensures
        match r {
            Some((root, path)) => project_found(levels@, selector@, windows, root@, path@),
            None => no_project(levels@),
        },
{
    let mut i: usize = 0;
    while i < levels.len()
        invariant
            0 <= i <= levels@.len(),
            forall|j: int| 0 <= j < i ==> !(#[trigger] levels@[j]).1 && !levels@[j].2,
        decreases levels@.len() - i,
    {
        if levels[i].1 || levels[i].2 {
            let (private, shared) = project_manifest_candidates(levels[i].0.as_str(), selector, windows);
            let path = if levels[i].1 { private } else { shared };
            let root = levels[i].0.as_str().to_owned();
            proof {
                assert(path@ == level_manifest(levels@[i as int], selector@, windows));
                assert(project_found(levels@, selector@, windows, root@, path@));
            }
            return Some((root, path));
        }
        i = i + 1;
    }
    None
}

/// What a selector names: a global manifest (its position in the index), else a project
/// manifest (its project root and its path), else nothing.
#[derive(Debug, Clone, PartialEq, Eq)]
pub enum ManifestChoice {
    Global(usize),
    Project { root: String, path: String },
    Missing,
}

/// `i` is the first global manifest whose ID or name is `selector`.
pub open spec fn resolves_to(entries: Seq<ManifestEntry>, selector: Seq<char>, i: int) -> bool {
    &&& 0 <= i < entries.len()
    &&& global_match(entries, selector, i)
    &&& forall|j: int| 0 <= j < i ==> !global_match(entries, selector, j)
}

/// No global manifest has `selector` as its ID or its name.
pub open spec fn no_global(entries: Seq<ManifestEntry>, selector: Seq<char>) -> bool {
    forall|j: int| 0 <= j < entries.len() ==> !global_match(entries, selector, j)
}

/// What resolving `selector` gives: the first global manifest with this ID or name; failing
/// that, the nearest project manifest of this name; failing that, nothing.
pub open spec fn choice_ok(
    entries: Seq<ManifestEntry>,
    selector: Seq<char>,
    levels: Seq<(String, bool, bool)>,
    windows: bool,
    c: ManifestChoice,
) -> bool {
    match c {
        ManifestChoice::Global(i) => resolves_to(entries, selector, i as int),
        ManifestChoice::Project { root, path } => no_global(entries, selector) && project_found(
            levels,
            selector,
            windows,
            root@,
            path@,
        ),
        ManifestChoice::Missing => no_global(entries, selector) && no_project(levels),
    }
}

/// Resolves a selector against the global manifests of the index, then against the project
/// directories from the current one up (each with whether its private and its shared
/// candidate exist).
pub fn choose_manifest(
    entries: &[ManifestEntry],
    selector: &str,
    levels: &[(String, bool, bool)],
    windows: bool,
) -> (r: ManifestChoice)
    ensures
        choice_ok(entries@, selector@, levels@, windows, r),
{
    match find_global(entries, selector) {
        Some(i) => ManifestChoice::Global(i),
        None => match find_project_manifest(levels, selector, windows) {
            Some((root, path)) => ManifestChoice::Project { root, path },
            None => ManifestChoice::Missing,
        },
    }
}

/// A manifest just added is what its ID resolves to, unless an older entry is named like the
/// ID, and what its name resolves to, unless an older entry has the name as its ID; whatever
/// the project directories hold.
pub proof fn lemma_added_manifest_resolves(
    entries: Seq<ManifestEntry>,
    added: ManifestEntry,
    levels: Seq<(String, bool, bool)>,
    windows: bool,
    c: ManifestChoice,
)
    requires
        max_numeric_id(entry_ids(entries)) < u32::MAX,
        added.id@ == next_id_spec(entry_ids(entries)),
        !name_taken(entries, added.name@),
    ensures
        (forall|k: int| 0 <= k < entries.len() ==> (#[trigger] entries[k]).name@ != added.id@) && choice_ok(
            entries.push(added),
            added.id@,
            levels,
            windows,
            c,
        ) ==> c == ManifestChoice::Global(entries.len() as usize),
        (forall|k: int| 0 <= k < entries.len() ==> (#[trigger] entries[k]).id@ != added.name@) && choice_ok(
            entries.push(added),
            added.name@,
            levels,
            windows,
            c,
        ) ==> c == ManifestChoice::Global(entries.len() as usize),
{
    lemma_added_entry_found(entries, added);
    let ext = entries.push(added);
    let n = entries.len() as int;
    assert(ext.len() == n + 1);
    if let ManifestChoice::Global(i) = c {
        if choice_ok(ext, added.id@, levels, windows, c) && (forall|k: int|
            0 <= k < entries.len() ==> (#[trigger] entries[k]).name@ != added.id@) {
            assert(global_match(ext, added.id@, n));
            if (i as int) < n {
                assert(!global_match(ext, added.id@, i as int));
            }
        }
        if choice_ok(ext, added.name@, levels, windows, c) && (forall|k: int|
            0 <= k < entries.len() ==> (#[trigger] entries[k]).id@ != added.name@) {
            assert(global_match(ext, added.name@, n));
            if (i as int) < n {
                assert(!global_match(ext, added.name@, i as int));
            }
        }
    } else {
        if forall|k: int| 0 <= k < entries.len() ==> (#[trigger] entries[k]).name@ != added.id@ {
            assert(global_match(ext, added.id@, n));
        }
        if forall|k: int| 0 <= k < entries.len() ==> (#[trigger] entries[k]).id@ != added.name@ {
            assert(global_match(ext, added.name@, n));
        }
    }
}

/// A manifest just added is found again. Its new ID is no older entry's ID; so a lookup of
/// that ID finds it, unless an older entry is named like the ID. Its name is no older entry's
/// name; so a lookup of the name finds it, unless an older entry has the name as its ID.
pub proof fn lemma_added_entry_found(entries: Seq<ManifestEntry>, added: ManifestEntry)
    requires
        max_numeric_id(entry_ids(entries)) < u32::MAX,
        added.id@ == next_id_spec(entry_ids(entries)),
        !name_taken(entries, added.name@),
    ensures
        forall|k: int| 0 <= k < entries.len() ==> (#[trigger] entries[k]).id@ != added.id@,
        (forall|k: int| 0 <= k < entries.len() ==> (#[trigger] entries[k]).name@ != added.id@) ==> (
        global_match(entries.push(added), added.id@, entries.len() as int) && forall|j: int|
            0 <= j < entries.len() ==> !global_match(entries.push(added), added.id@, j)),
        (forall|k: int| 0 <= k < entries.len() ==> (#[trigger] entries[k]).id@ != added.name@) ==> (
        global_match(entries.push(added), added.name@, entries.len() as int) && forall|j: int|
            0 <= j < entries.len() ==> !global_match(entries.push(added), added.name@, j)),
{
    let ids = entry_ids(entries);
    crate::numbers::lemma_next_id_parses(ids);
    assert forall|k: int| 0 <= k < entries.len() implies (#[trigger] entries[k]).id@ != added.id@ by {
        assert(ids[k] == entries[k].id@);
        if crate::numbers::parse_u32_spec(ids[k]) is Some {
            crate::numbers::lemma_next_id_is_fresh(ids, k);
        }
    }
    let ext = entries.push(added);
    assert forall|j: int| 0 <= j < entries.len() implies ext[j] == entries[j] by {}
    assert(ext[entries.len() as int] == added);
    if forall|k: int| 0 <= k < entries.len() ==> (#[trigger] entries[k]).id@ != added.name@ {
        assert forall|j: int| 0 <= j < entries.len() implies !global_match(ext, added.name@, j) by {
            assert(ext[j] == entries[j]);
            assert(entries[j].name@ != added.name@);
        }
    }
    if forall|k: int| 0 <= k < entries.len() ==> (#[trigger] entries[k]).name@ != added.id@ {
        assert forall|j: int| 0 <= j < entries.len() implies !global_match(ext, added.id@, j) by {
            assert(ext[j] == entries[j]);
            assert(entries[j].id@ != added.id@);
        }
    }
}

} // verus!

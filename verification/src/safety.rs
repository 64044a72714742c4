//! Lexical path safety: file operations stay inside the working directory unless a manifest
//! allows otherwise.
//!
//! Paths are text, read by the rules of the platform the caller names (see `paths`).
//! Following symbolic links through the existing part of a path needs the file system: the
//! caller resolves it and `check_resolved` decides.
use vstd::prelude::*;
use crate::paths::{
    is_absolute, is_sep, join, join_path, prefix_of, relative_components, relative_exec,
    win_prefix_exec,
};
use crate::text::chars_of;

verus! {

/// Why a requested path was refused.
#[derive(Debug, Clone, PartialEq, Eq)]
pub enum PathError {
    /// The path is absolute.
    Outside(String),
    /// The path has a `..` component.
    Traverses(String),
    /// An existing part of the path leads outside the working directory, through a link.
    ResolvesOutside(String),
}

pub enum SpecPathError {
    Outside(Seq<char>),
    ResolvesOutside(Seq<char>),
    Traverses(Seq<char>),
}

impl View for PathError {
    type V = SpecPathError;

    open spec fn view(&self) -> SpecPathError {
        match self {
            PathError::Outside(p) => SpecPathError::Outside(p@),
            PathError::Traverses(p) => SpecPathError::Traverses(p@),
            PathError::ResolvesOutside(p) => SpecPathError::ResolvesOutside(p@),
        }
    }
}

/// A path that leaves the working directory by its text alone: it has a root or a prefix
/// (absolute paths among them).
pub open spec fn outside_text(p: Seq<char>, windows: bool) -> bool {
    prefix_of(p, windows) is Some || (p.len() > 0 && is_sep(p[0], windows))
}

/// A component `..` starts at `i` in `p`: two dots bounded by the ends of `p` or by separators.
pub open spec fn parent_component_at(p: Seq<char>, i: int, windows: bool) -> bool {
    &&& 0 <= i
    &&& i + 2 <= p.len()
    &&& p[i] == '.'
    &&& p[i + 1] == '.'
    &&& (i == 0 || is_sep(p[i - 1], windows))
    &&& (i + 2 == p.len() || is_sep(p[i + 2], windows))
}

/// `p` has a component `..`.
pub open spec fn has_parent_component(p: Seq<char>, windows: bool) -> bool {
    exists|i: int| parent_component_at(p, i, windows)
}

/// What `safe_path` decides for `requested` under `base`: without the allowance, a path with
/// a root, a prefix or a `..` component is refused.
pub open spec fn safe_path_spec(
    base: Seq<char>,
    requested: Seq<char>,
    allow_outside_cwd: bool,
    windows: bool,
) -> Result<Seq<char>, SpecPathError> {
    if allow_outside_cwd {
        Ok(join(base, requested, windows))
    } else if outside_text(requested, windows) {
        Err(SpecPathError::Outside(requested))
    } else if has_parent_component(requested, windows) {
        Err(SpecPathError::Traverses(requested))
    } else {
        Ok(join(base, requested, windows))
    }
}

pub fn outside_text_exec(p: &[char], windows: bool) -> (r: bool)
    ensures
        r == outside_text(p@, windows),
{
    let pre = if windows {
        win_prefix_exec(p)
    } else {
        None
    };
    pre.is_some() || (p.len() > 0 && (p[0] == '/' || (windows && p[0] == '\\')))
}

fn sep_exec(c: char, windows: bool) -> (r: bool)
    ensures
        r == is_sep(c, windows),
{
    c == '/' || (windows && c == '\\')
}

pub fn has_parent_component_exec(p: &[char], windows: bool) -> (r: bool)
    ensures
        r == has_parent_component(p@, windows),
{
    let mut i: usize = 0;
    while i < p.len() && 2 <= p.len() - i
        invariant
            0 <= i <= p@.len(),
            forall|j: int| 0 <= j < i ==> !parent_component_at(p@, j, windows),
        decreases p@.len() - i,
    {
        if p[i] == '.' && p[i + 1] == '.' && (i == 0 || sep_exec(p[i - 1], windows)) && (i + 2
            == p.len() || sep_exec(p[i + 2], windows)) {
            proof {
                assert(parent_component_at(p@, i as int, windows));
            }
            return true;
        }
        i = i + 1;
    }
    proof {
        assert forall|j: int| !parent_component_at(p@, j, windows) by {
            if j >= i {
                assert(!(j + 2 <= p@.len()));
            }
        }
    }
    false
}

/// The path that a manifest's `requested` path names under `base`, refused when it has a
/// root, a prefix or a `..` component, unless the manifest allows paths outside the working
/// directory; `windows` tells which platform's path rules apply.
pub fn safe_path(base: &str, requested: &str, allow_outside_cwd: bool, windows: bool) -> (r: Result<
    String,
    PathError,
>)
    ensures
        match r {
            Ok(p) => safe_path_spec(base@, requested@, allow_outside_cwd, windows) == Ok::<
                Seq<char>,
                SpecPathError,
            >(p@),
            Err(e) => safe_path_spec(base@, requested@, allow_outside_cwd, windows) == Err::<
                Seq<char>,
                SpecPathError,
            >(e@),
        },
{
    let q = chars_of(requested);
    if !allow_outside_cwd {
        if outside_text_exec(&q, windows) {
            return Err(PathError::Outside(requested.to_owned()));
        }
        if has_parent_component_exec(&q, windows) {
            return Err(PathError::Traverses(requested.to_owned()));
        }
    }
    Ok(join_path(base, requested, windows))
}

/// A path that `safe_path` accepts without the allowance has no root, no prefix and no `..`
/// component: it cannot name anything outside `base` by its text.
pub proof fn lemma_safe_path_stays_inside(base: Seq<char>, requested: Seq<char>, windows: bool)
    requires
        safe_path_spec(base, requested, false, windows) is Ok,
    ensures
        !is_absolute(requested, windows),
        !outside_text(requested, windows),
        !has_parent_component(requested, windows),
        safe_path_spec(base, requested, false, windows) == Ok::<Seq<char>, SpecPathError>(
            join(base, requested, windows),
        ),
{
}

/// A path as text, for logs and messages.
pub fn display_path(path: &str) -> (r: String)
    ensures
        r@ == path@,
{
    path.to_owned()
}

/// The first of a path and its ancestors, nearest first, that exists: each given with
/// whether it exists.
pub fn nearest_existing_path(chain: &[(String, bool)]) -> (r: Option<String>)
    ensures
        match r {
            Some(p) => exists|i: int|
                0 <= i < chain@.len() && (#[trigger] chain@[i]).1 && chain@[i].0@ == p@ && forall|j: int|
                    0 <= j < i ==> !(#[trigger] chain@[j]).1,
            None => forall|i: int| 0 <= i < chain@.len() ==> !(#[trigger] chain@[i]).1,
        },
{
    let mut i: usize = 0;
    while i < chain.len()
        invariant
            0 <= i <= chain@.len(),
            forall|j: int| 0 <= j < i ==> !(#[trigger] chain@[j]).1,
        decreases chain@.len() - i,
    {
        if chain[i].1 {
            return Some(display_path(chain[i].0.as_str()));
        }
        i = i + 1;
    }
    None
}

/// Once the canonical forms are known: the nearest existing part of the target,
/// resolved, must lie within the resolved working directory, component by component;
/// nothing existing means nothing to check.
pub fn check_resolved(
    requested: &str,
    canonical_base: &str,
    canonical_existing: Option<&str>,
    windows: bool,
) -> (r: Result<(), PathError>)
    ensures
        match canonical_existing {
            None => r is Ok,
            Some(c) => match relative_components(c@, canonical_base@, windows) {
                Some(_) => r is Ok,
                None => r matches Err(PathError::ResolvesOutside(q)) && q@ == requested@,
            },
        },
{
    match canonical_existing {
        None => Ok(()),
        Some(c) => match relative_exec(c, canonical_base, windows) {
            Some(_) => Ok(()),
            None => Err(PathError::ResolvesOutside(display_path(requested))),
        },
    }
}

} // verus!

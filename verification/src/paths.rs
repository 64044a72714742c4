//! Paths as text, by the rules of `std::path` on the two families of platforms: on Unix only
//! `/` separates; on Windows `\` separates too, and a path may start with a prefix (a drive
//! such as `C:`, a share such as `\\server\share`, or a verbatim `\\?\` form).
//!
//! Components are given as text.  The root is `/` on Unix and `\` on Windows; a prefix is
//! given by a key that starts with `\` and a letter for its kind, so that two prefixes have
//! the same key exactly when `std::path` counts them equal, and no other component has it.
use vstd::prelude::*;
use crate::text::{is_alpha, lemma_skip_while, lower_char, push_all, skip_while, slice_copy};

verus! {

/// A separator: `/`, and on Windows also `\`.
pub open spec fn is_sep(c: char, windows: bool) -> bool {
    c == '/' || (windows && c == '\\')
}

/// Either separator of Windows.
pub open spec fn is_win_sep(c: char) -> bool {
    c == '/' || c == '\\'
}

/// What ends a segment: inside a verbatim path only `\`.
pub open spec fn seg_sep(c: char, windows: bool, verbatim: bool) -> bool {
    if verbatim {
        c == '\\'
    } else {
        is_sep(c, windows)
    }
}

pub open spec fn in_segment(windows: bool, verbatim: bool) -> spec_fn(char) -> bool {
    |c: char| !seg_sep(c, windows, verbatim)
}

/// The end of the segment that starts at `k`: the first separator at or after `k`.
pub open spec fn seg_end(s: Seq<char>, k: int, windows: bool, verbatim: bool) -> int {
    skip_while(s, in_segment(windows, verbatim), k)
}

/// Where the text after the segment ending at `e` starts: past its separator, if any.
pub open spec fn after_seg(s: Seq<char>, e: int) -> int {
    if e < s.len() {
        e + 1
    } else {
        e
    }
}

/// A Windows prefix: its length in the text, its key, whether it is verbatim, and whether
/// it is a plain drive such as `C:`.
pub struct SpecPrefix {
    pub len: int,
    pub key: Seq<char>,
    pub verbatim: bool,
    pub disk: bool,
}

/// `\\?\` exactly.
pub open spec fn verbatim_start(s: Seq<char>) -> bool {
    s.len() >= 4 && s[0] == '\\' && s[1] == '\\' && s[2] == '?' && s[3] == '\\'
}

/// The prefix of a Windows path, as `std::path` parses it.
pub open spec fn win_prefix(s: Seq<char>) -> Option<SpecPrefix> {
    if s.len() >= 2 && is_win_sep(s[0]) && is_win_sep(s[1]) {
        if verbatim_start(s) {
            if s.len() >= 8 && s[4] == 'U' && s[5] == 'N' && s[6] == 'C' && is_win_sep(s[7]) {
                let e1 = seg_end(s, 8, true, true);
                let k2 = after_seg(s, e1);
                let e2 = seg_end(s, k2, true, true);
                Some(
                    SpecPrefix {
                        len: if e2 > k2 {
                            e2
                        } else {
                            e1
                        },
                        key: seq!['\\', 'W'] + s.subrange(8, e1) + seq!['\\'] + s.subrange(k2, e2),
                        verbatim: true,
                        disk: false,
                    },
                )
            } else if s.len() >= 6 && is_alpha(s[4]) && s[5] == ':' && (s.len() == 6 || s[6]
                == '\\') {
                Some(
                    SpecPrefix {
                        len: 6,
                        key: seq!['\\', 'K', lower_char(s[4])],
                        verbatim: true,
                        disk: false,
                    },
                )
            } else {
                let e = seg_end(s, 4, true, true);
                Some(
                    SpecPrefix {
                        len: e,
                        key: seq!['\\', 'V'] + s.subrange(4, e),
                        verbatim: true,
                        disk: false,
                    },
                )
            }
        } else if s.len() >= 4 && s[2] == '.' && is_win_sep(s[3]) {
            let e = seg_end(s, 4, true, false);
            Some(
                SpecPrefix {
                    len: e,
                    key: seq!['\\', 'N'] + s.subrange(4, e),
                    verbatim: false,
                    disk: false,
                },
            )
        } else {
            let e1 = seg_end(s, 2, true, false);
            let k2 = after_seg(s, e1);
            let e2 = seg_end(s, k2, true, false);
            if e1 > 2 && e2 > k2 {
                Some(
                    SpecPrefix {
                        len: e2,
                        key: seq!['\\', 'U'] + s.subrange(2, e1) + seq!['\\'] + s.subrange(k2, e2),
                        verbatim: false,
                        disk: false,
                    },
                )
            } else {
                None
            }
        }
    } else if s.len() >= 2 && is_alpha(s[0]) && s[1] == ':' {
        Some(SpecPrefix { len: 2, key: seq!['\\', 'D', lower_char(s[0])], verbatim: false, disk: true })
    } else {
        None
    }
}

/// The prefix of a path on the given platform: none on Unix.
pub open spec fn prefix_of(s: Seq<char>, windows: bool) -> Option<SpecPrefix> {
    if windows {
        win_prefix(s)
    } else {
        None
    }
}

/// The length of the prefix of a path, 0 when it has none.
pub open spec fn prefix_len(s: Seq<char>, windows: bool) -> int {
    match prefix_of(s, windows) {
        Some(p) => p.len,
        None => 0,
    }
}

pub proof fn lemma_seg_end(s: Seq<char>, k: int, windows: bool, verbatim: bool)
    requires
        0 <= k <= s.len(),
    ensures
        k <= seg_end(s, k, windows, verbatim) <= s.len(),
        forall|j: int|
            k <= j < seg_end(s, k, windows, verbatim) ==> !seg_sep(#[trigger] s[j], windows, verbatim),
        seg_end(s, k, windows, verbatim) < s.len() ==> seg_sep(
            s[seg_end(s, k, windows, verbatim)],
            windows,
            verbatim,
        ),
{
    lemma_skip_while(s, in_segment(windows, verbatim), k);
    assert forall|j: int| k <= j < seg_end(s, k, windows, verbatim) implies !seg_sep(
        #[trigger] s[j],
        windows,
        verbatim,
    ) by {
        assert(in_segment(windows, verbatim)(s[j]));
    }
}

pub proof fn lemma_prefix_bounds(s: Seq<char>, windows: bool)
    ensures
        0 <= prefix_len(s, windows) <= s.len(),
        prefix_of(s, windows) is Some ==> prefix_len(s, windows) >= 2 && prefix_of(s, windows)->0.key.len() >= 2
            && prefix_of(s, windows)->0.key[0] == '\\',
{
    if windows && s.len() >= 2 {
        lemma_seg_end(s, 2, true, false);
        if s.len() >= 4 {
            lemma_seg_end(s, 4, true, false);
            lemma_seg_end(s, 4, true, true);
        }
        if s.len() >= 8 {
            lemma_seg_end(s, 8, true, true);
            let e1 = seg_end(s, 8, true, true);
            lemma_seg_end(s, after_seg(s, e1), true, true);
        }
        let e1 = seg_end(s, 2, true, false);
        lemma_seg_end(s, after_seg(s, e1), true, false);
    }
}

fn seg_sep_exec(c: char, windows: bool, verbatim: bool) -> (r: bool)
    ensures
        r == seg_sep(c, windows, verbatim),
{
    if verbatim {
        c == '\\'
    } else {
        c == '/' || (windows && c == '\\')
    }
}

/// The end of the segment at `k`.
pub fn seg_end_exec(s: &[char], k: usize, windows: bool, verbatim: bool) -> (r: usize)
    requires
        k <= s@.len(),
    ensures
        r == seg_end(s@, k as int, windows, verbatim),
        k <= r <= s@.len(),
{
    proof {
        lemma_seg_end(s@, k as int, windows, verbatim);
    }
    let mut i = k;
    while i < s.len() && !seg_sep_exec(s[i], windows, verbatim)
        invariant
            k <= i <= s@.len(),
            skip_while(s@, in_segment(windows, verbatim), i as int) == seg_end(s@, k as int, windows, verbatim),
        decreases s@.len() - i,
    {
        proof {
            assert(in_segment(windows, verbatim)(s@[i as int]));
        }
        i = i + 1;
    }
    proof {
        if i < s@.len() {
            assert(!in_segment(windows, verbatim)(s@[i as int]));
        }
    }
    i
}

/// A Windows prefix found in a path.
pub struct PrefixInfo {
    pub len: usize,
    pub key: Vec<char>,
    pub verbatim: bool,
    pub disk: bool,
}

pub open spec fn prefix_info_view(p: Option<PrefixInfo>) -> Option<SpecPrefix> {
    match p {
        Some(i) => Some(SpecPrefix { len: i.len as int, key: i.key@, verbatim: i.verbatim, disk: i.disk }),
        None => None,
    }
}

fn win_sep(c: char) -> (r: bool)
    ensures
        r == is_win_sep(c),
{
    c == '/' || c == '\\'
}

fn lower_exec(c: char) -> (r: char)
    ensures
        r == lower_char(c),
{
    if 'A' <= c && c <= 'Z' {
        ((c as u8) + 32) as char
    } else {
        c
    }
}

/// The key of a prefix made of a tag and two fields.
fn two_field_key(tag: char, s: &[char], a: usize, b: usize, c: usize, d: usize) -> (r: Vec<char>)
    requires
        a <= b <= s@.len(),
        c <= d <= s@.len(),
    ensures
        r@ == seq!['\\', tag] + s@.subrange(a as int, b as int) + seq!['\\'] + s@.subrange(
            c as int,
            d as int,
        ),
{
    let mut r = vec!['\\', tag];
    push_all(&mut r, &slice_copy(s, a, b));
    r.push('\\');
    push_all(&mut r, &slice_copy(s, c, d));
    r
}

/// The prefix of a Windows path.
pub fn win_prefix_exec(s: &[char]) -> (r: Option<PrefixInfo>)
    ensures
        prefix_info_view(r) == win_prefix(s@),
{
    let n = s.len();
    if n >= 2 && win_sep(s[0]) && win_sep(s[1]) {
        if n >= 4 && s[0] == '\\' && s[1] == '\\' && s[2] == '?' && s[3] == '\\' {
            if n >= 8 && s[4] == 'U' && s[5] == 'N' && s[6] == 'C' && win_sep(s[7]) {
                let e1 = seg_end_exec(s, 8, true, true);
                let k2 = if e1 < n {
                    e1 + 1
                } else {
                    e1
                };
                let e2 = seg_end_exec(s, k2, true, true);
                let key = two_field_key('W', s, 8, e1, k2, e2);
                let len = if e2 > k2 {
                    e2
                } else {
                    e1
                };
                Some(PrefixInfo { len, key, verbatim: true, disk: false })
            } else if n >= 6 && ((s[4] >= 'a' && s[4] <= 'z') || (s[4] >= 'A' && s[4] <= 'Z')) && s[5]
                == ':' && (n == 6 || s[6] == '\\') {
                let key = vec!['\\', 'K', lower_exec(s[4])];
                proof {
                    assert(key@ =~= seq!['\\', 'K', lower_char(s@[4])]);
                }
                Some(PrefixInfo { len: 6, key, verbatim: true, disk: false })
            } else {
                let e = seg_end_exec(s, 4, true, true);
                let mut key = vec!['\\', 'V'];
                push_all(&mut key, &slice_copy(s, 4, e));
                Some(PrefixInfo { len: e, key, verbatim: true, disk: false })
            }
        } else if n >= 4 && s[2] == '.' && win_sep(s[3]) {
            let e = seg_end_exec(s, 4, true, false);
            let mut key = vec!['\\', 'N'];
            push_all(&mut key, &slice_copy(s, 4, e));
            Some(PrefixInfo { len: e, key, verbatim: false, disk: false })
        } else {
            let e1 = seg_end_exec(s, 2, true, false);
            let k2 = if e1 < n {
                e1 + 1
            } else {
                e1
            };
            let e2 = seg_end_exec(s, k2, true, false);
            if e1 > 2 && e2 > k2 {
                let key = two_field_key('U', s, 2, e1, k2, e2);
                Some(PrefixInfo { len: e2, key, verbatim: false, disk: false })
            } else {
                None
            }
        }
    } else if n >= 2 && ((s[0] >= 'a' && s[0] <= 'z') || (s[0] >= 'A' && s[0] <= 'Z')) && s[1]
        == ':' {
        let key = vec!['\\', 'D', lower_exec(s[0])];
        proof {
            assert(key@ =~= seq!['\\', 'D', lower_char(s@[0])]);
        }
        Some(PrefixInfo { len: 2, key, verbatim: false, disk: true })
    } else {
        None
    }
}


/// A segment that makes a component: not empty, and not `.` outside verbatim paths.
pub open spec fn keep_seg(seg: Seq<char>, verbatim: bool) -> bool {
    seg.len() > 0 && (verbatim || seg != seq!['.'])
}

pub open spec fn kept(seg: Seq<char>, verbatim: bool) -> Seq<Seq<char>> {
    if keep_seg(seg, verbatim) {
        seq![seg]
    } else {
        Seq::empty()
    }
}

/// The components of `s[k..]`, the segment under way being `cur`.
pub open spec fn segs_from(s: Seq<char>, k: int, cur: Seq<char>, windows: bool, verbatim: bool) -> Seq<
    Seq<char>,
>
    decreases s.len() - k,
{
    if k < 0 || k >= s.len() {
        kept(cur, verbatim)
    } else if seg_sep(s[k], windows, verbatim) {
        kept(cur, verbatim) + segs_from(s, k + 1, Seq::empty(), windows, verbatim)
    } else {
        segs_from(s, k + 1, cur.push(s[k]), windows, verbatim)
    }
}

/// The root component: `/` on Unix, `\` on Windows.
pub open spec fn root_comp(windows: bool) -> Seq<char> {
    if windows {
        seq!['\\']
    } else {
        seq!['/']
    }
}

/// Whether a path with prefix `p` has a root right after it.
pub open spec fn physical_root(s: Seq<char>, p: SpecPrefix) -> bool {
    0 <= p.len < s.len() && is_win_sep(s[p.len])
}

/// The components of a path as `Path::components` gives them: the prefix (by its key), the
/// root, a leading `.`, then the segments between separators without the empty ones and,
/// outside verbatim paths, without `.`.
pub open spec fn path_components(s: Seq<char>, windows: bool) -> Seq<Seq<char>> {
    match prefix_of(s, windows) {
        Some(p) => {
            let phys = physical_root(s, p);
            seq![p.key] + (if phys || (!p.disk && !p.verbatim) {
                seq![root_comp(true)]
            } else {
                Seq::empty()
            }) + segs_from(
                s,
                if phys {
                    p.len + 1
                } else {
                    p.len
                },
                Seq::empty(),
                true,
                p.verbatim,
            )
        },
        None => if s.len() > 0 && is_sep(s[0], windows) {
            seq![root_comp(windows)] + segs_from(s, 1, Seq::empty(), windows, false)
        } else if s.len() > 0 && s[0] == '.' && (s.len() == 1 || is_sep(s[1], windows)) {
            seq![seq!['.']] + segs_from(s, 1, Seq::empty(), windows, false)
        } else {
            segs_from(s, 0, Seq::empty(), windows, false)
        },
    }
}

pub open spec fn comps_view(v: Seq<Vec<char>>) -> Seq<Seq<char>> {
    v.map_values(|c: Vec<char>| c@)
}

fn push_kept(out: &mut Vec<Vec<char>>, cur: Vec<char>, verbatim: bool)
    ensures
        comps_view(final(out)@) == comps_view(old(out)@) + kept(cur@, verbatim),
{
    let ghost before = comps_view(out@);
    let is_dot = cur.len() == 1 && cur[0] == '.';
    proof {
        assert(is_dot == (cur@ == seq!['.'])) by {
            if cur@ == seq!['.'] {
                assert(cur@.len() == 1 && cur@[0] == '.');
            }
            if is_dot {
                assert(cur@ =~= seq!['.']);
            }
        }
    }
    if cur.len() > 0 && (verbatim || !is_dot) {
        out.push(cur);
        proof {
            assert(comps_view(out@) =~= before + seq![cur@]);
        }
    } else {
        proof {
            assert(comps_view(out@) =~= before + Seq::<Seq<char>>::empty());
        }
    }
}

/// Appends the components of `s[k..]` to `out`.
fn push_segs(out: &mut Vec<Vec<char>>, s: &[char], k: usize, windows: bool, verbatim: bool)
    requires
        k <= s@.len(),
    ensures
        comps_view(final(out)@) == comps_view(old(out)@) + segs_from(s@, k as int, Seq::empty(), windows, verbatim),
{
    let ghost start = comps_view(out@);
    let mut cur: Vec<char> = Vec::new();
    let mut i = k;
    proof {
        assert(start + segs_from(s@, k as int, cur@, windows, verbatim) =~= comps_view(out@) + segs_from(s@, i as int, cur@, windows, verbatim));
    }
    while i < s.len()
        invariant
            k <= i <= s@.len(),
            start + segs_from(s@, k as int, Seq::empty(), windows, verbatim) == comps_view(out@) + segs_from(
                s@,
                i as int,
                cur@,
                windows,
                verbatim,
            ),
        decreases s@.len() - i,
    {
        let c = s[i];
        let sep = if verbatim {
            c == '\\'
        } else {
            c == '/' || (windows && c == '\\')
        };
        if sep {
            let ghost before = comps_view(out@);
            let ghost cv = cur@;
            push_kept(out, cur, verbatim);
            proof {
                assert(before + (kept(cv, verbatim) + segs_from(s@, i + 1, Seq::empty(), windows, verbatim)) =~= (before
                    + kept(cv, verbatim)) + segs_from(s@, i + 1, Seq::empty(), windows, verbatim));
            }
            cur = Vec::new();
            proof {
                assert(cur@ =~= Seq::<char>::empty());
            }
        } else {
            cur.push(c);
        }
        i = i + 1;
    }
    push_kept(out, cur, verbatim);
}

/// The components of a path.
pub fn path_components_exec(path: &str, windows: bool) -> (r: Vec<Vec<char>>)
    ensures
        comps_view(r@) == path_components(path@, windows),
{
    let s = crate::text::chars_of(path);
    let mut out: Vec<Vec<char>> = Vec::new();
    let pre = if windows {
        win_prefix_exec(&s)
    } else {
        None
    };
    proof {
        assert(prefix_info_view(pre) == prefix_of(s@, windows));
        lemma_prefix_bounds(s@, windows);
    }
    match pre {
        Some(p) => {
            let phys = p.len < s.len() && win_sep(s[p.len]);
            let ghost key = p.key@;
            let rooted = phys || (!p.disk && !p.verbatim);
            out.push(p.key);
            if rooted {
                let r = vec!['\\'];
                proof {
                    assert(r@ =~= root_comp(true));
                }
                out.push(r);
            }
            proof {
                if rooted {
                    assert(comps_view(out@) =~= seq![key] + seq![root_comp(true)]);
                } else {
                    assert(comps_view(out@) =~= seq![key] + Seq::<Seq<char>>::empty());
                }
            }
            let start = if phys {
                p.len + 1
            } else {
                p.len
            };
            push_segs(&mut out, &s, start, true, p.verbatim);
        },
        None => {
            if s.len() > 0 && (s[0] == '/' || (windows && s[0] == '\\')) {
                let r = if windows {
                    vec!['\\']
                } else {
                    vec!['/']
                };
                proof {
                    assert(r@ =~= root_comp(windows));
                }
                out.push(r);
                proof {
                    assert(comps_view(out@) =~= seq![root_comp(windows)]);
                }
                push_segs(&mut out, &s, 1, windows, false);
            } else if s.len() > 0 && s[0] == '.' && (s.len() == 1 || s[1] == '/' || (windows && s[1]
                == '\\')) {
                let r = vec!['.'];
                proof {
                    assert(r@ =~= seq!['.']);
                }
                out.push(r);
                proof {
                    assert(comps_view(out@) =~= seq![seq!['.']]);
                }
                push_segs(&mut out, &s, 1, windows, false);
            } else {
                proof {
                    assert(comps_view(out@) =~= Seq::<Seq<char>>::empty());
                }
                push_segs(&mut out, &s, 0, windows, false);
            }
        },
    }
    out
}

/// The components of `path` after those of `root`, when `root`'s are a prefix of them: what
/// `Path::strip_prefix` leaves.
pub open spec fn relative_components(path: Seq<char>, root: Seq<char>, windows: bool) -> Option<
    Seq<Seq<char>>,
> {
    let pc = path_components(path, windows);
    let rc = path_components(root, windows);
    if rc.len() <= pc.len() && pc.take(rc.len() as int) == rc {
        Some(pc.skip(rc.len() as int))
    } else {
        None
    }
}

/// The components of `path` after those of `root`, if `root`'s are a prefix of them.
#[verifier::loop_isolation(false)]
pub fn relative_exec(path: &str, root: &str, windows: bool) -> (r: Option<Vec<Vec<char>>>)
    ensures
        match r {
            Some(v) => relative_components(path@, root@, windows) == Some(comps_view(v@)),
            None => relative_components(path@, root@, windows) is None,
        },
{
    let pc = path_components_exec(path, windows);
    let rc = path_components_exec(root, windows);
    if rc.len() > pc.len() {
        return None;
    }
    let mut i: usize = 0;
    while i < rc.len()
        invariant
            rc@.len() <= pc@.len(),
            0 <= i <= rc@.len(),
            forall|j: int| 0 <= j < i ==> pc@[j]@ == rc@[j]@,
        decreases rc@.len() - i,
    {
        if !crate::text::chars_eq(&pc[i], &rc[i]) {
            proof {
                assert(comps_view(pc@).take(rc@.len() as int)[i as int] != comps_view(rc@)[i as int]);
                assert(comps_view(pc@).take(rc@.len() as int) != comps_view(rc@));
            }
            return None;
        }
        i = i + 1;
    }
    proof {
        assert(comps_view(pc@).take(rc@.len() as int) =~= comps_view(rc@));
    }
    let mut rest: Vec<Vec<char>> = Vec::new();
    let mut k: usize = rc.len();
    while k < pc.len()
        invariant
            rc@.len() <= k <= pc@.len(),
            comps_view(rest@) == comps_view(pc@).subrange(rc@.len() as int, k as int),
        decreases pc@.len() - k,
    {
        let ghost before = comps_view(rest@);
        let c = slice_copy(&pc[k], 0, pc[k].len());
        proof {
            assert(c@ =~= pc@[k as int]@);
        }
        rest.push(c);
        k = k + 1;
        proof {
            assert(comps_view(rest@) =~= before.push(pc@[k - 1]@));
            assert(comps_view(rest@) =~= comps_view(pc@).subrange(rc@.len() as int, k as int));
        }
    }
    proof {
        assert(comps_view(pc@).skip(rc@.len() as int) =~= comps_view(pc@).subrange(
            rc@.len() as int,
            pc@.len() as int,
        ));
    }
    Some(rest)
}


/// A path is absolute when it has a root and, on Windows, a prefix.
pub open spec fn is_absolute(p: Seq<char>, windows: bool) -> bool {
    if windows {
        match win_prefix(p) {
            Some(q) => physical_root(p, q) || !q.disk,
            None => false,
        }
    } else {
        p.len() > 0 && p[0] == '/'
    }
}

/// Whether `PathBuf::push` puts a separator between `base` and a relative path: `base` does
/// not end with one, and is not a bare drive such as `C:`.
pub open spec fn join_needs_sep(base: Seq<char>, windows: bool) -> bool {
    &&& base.len() > 0
    &&& !is_sep(base[base.len() - 1], windows)
    &&& !(windows && match win_prefix(base) {
        Some(p) => p.disk && p.len == base.len(),
        None => false,
    })
}

/// A component that names a directory entry: not the root, `.` or `..`.
pub open spec fn is_normal(c: Seq<char>) -> bool {
    c != root_comp(true) && c != seq!['.'] && c != seq!['.', '.']
}

/// One component of a relative path pushed onto those of a verbatim path.
pub open spec fn push_comp(buf: Seq<Seq<char>>, c: Seq<char>) -> Seq<Seq<char>> {
    if c == root_comp(true) {
        buf.take(1).push(c)
    } else if c == seq!['.'] {
        buf
    } else if c == seq!['.', '.'] {
        if buf.len() > 1 && is_normal(buf.last()) {
            buf.drop_last()
        } else {
            buf
        }
    } else {
        buf.push(c)
    }
}

pub open spec fn push_comps(buf: Seq<Seq<char>>, cs: Seq<Seq<char>>) -> Seq<Seq<char>>
    decreases cs.len(),
{
    if cs.len() == 0 {
        buf
    } else {
        push_comps(push_comp(buf, cs[0]), cs.drop_first())
    }
}

/// Components written out with `\` between them, none after the root.
pub open spec fn render(cs: Seq<Seq<char>>, need_sep: bool) -> Seq<char>
    decreases cs.len(),
{
    if cs.len() == 0 {
        Seq::empty()
    } else {
        (if need_sep && cs[0] != root_comp(true) {
            seq!['\\']
        } else {
            Seq::empty()
        }) + cs[0] + render(cs.drop_first(), cs[0] != root_comp(true))
    }
}

/// A relative path joined to a verbatim Windows path: rebuilt from the components, with `.`
/// dropped and `..` taking back a name.
pub open spec fn verbatim_join(base: Seq<char>, rel: Seq<char>) -> Seq<char> {
    let buf = push_comps(path_components(base, true), path_components(rel, true));
    base.take(prefix_len(base, true)) + render(buf.skip(1), true)
}

/// `base.join(rel)` by the rules of `PathBuf::push`.
pub open spec fn join(base: Seq<char>, rel: Seq<char>, windows: bool) -> Seq<char> {
    if is_absolute(rel, windows) || prefix_of(rel, windows) is Some {
        rel
    } else if windows && (match win_prefix(base) {
        Some(p) => p.verbatim,
        None => false,
    }) && rel.len() > 0 {
        verbatim_join(base, rel)
    } else if windows && rel.len() > 0 && is_win_sep(rel[0]) {
        base.take(prefix_len(base, true)) + rel
    } else if join_needs_sep(base, windows) {
        base + seq![
            if windows {
                '\\'
            } else {
                '/'
            },
        ] + rel
    } else {
        base + rel
    }
}

pub fn is_absolute_exec(p: &[char], windows: bool) -> (r: bool)
    ensures
        r == is_absolute(p@, windows),
{
    if windows {
        match win_prefix_exec(p) {
            Some(q) => (q.len < p.len() && win_sep(p[q.len])) || !q.disk,
            None => false,
        }
    } else {
        p.len() > 0 && p[0] == '/'
    }
}

fn is_normal_exec(c: &[char]) -> (r: bool)
    ensures
        r == is_normal(c@),
{
    let root = c.len() == 1 && c[0] == '\\';
    let dot = c.len() == 1 && c[0] == '.';
    let dots = c.len() == 2 && c[0] == '.' && c[1] == '.';
    proof {
        if c@ == root_comp(true) {
            assert(c@.len() == 1 && c@[0] == '\\');
        }
        if root {
            assert(c@ =~= root_comp(true));
        }
        if c@ == seq!['.'] {
            assert(c@.len() == 1 && c@[0] == '.');
        }
        if dot {
            assert(c@ =~= seq!['.']);
        }
        if c@ == seq!['.', '.'] {
            assert(c@.len() == 2 && c@[0] == '.' && c@[1] == '.');
        }
        if dots {
            assert(c@ =~= seq!['.', '.']);
        }
    }
    !root && !dot && !dots
}

fn verbatim_join_exec(base: &str, rel: &str) -> (r: Vec<char>)
    requires
        win_prefix(base@) is Some,
    ensures
        r@ == verbatim_join(base@, rel@),
{
    let mut buf = path_components_exec(base, true);
    let cs = path_components_exec(rel, true);
    let ghost buf0 = comps_view(buf@);
    let ghost csv = comps_view(cs@);
    let mut i: usize = 0;
    proof {
        assert(csv.skip(0) =~= csv);
    }
    proof {
        lemma_prefix_bounds(base@, true);
        assert(path_components(base@, true)[0] == win_prefix(base@)->0.key);
        assert(comps_view(buf@).len() == buf@.len());
    }
    while i < cs.len()
        invariant
            0 <= i <= cs@.len(),
            buf@.len() >= 1,
            csv == comps_view(cs@),
            push_comps(buf0, csv) == push_comps(comps_view(buf@), csv.skip(i as int)),
        decreases cs@.len() - i,
    {
        let ghost before = comps_view(buf@);
        let c = &cs[i];
        let ghost cv = c@;
        proof {
            assert(csv.skip(i as int)[0] == cv);
            assert(csv.skip(i as int).drop_first() =~= csv.skip(i + 1));
        }
        let is_root = c.len() == 1 && c[0] == '\\';
        let is_dot = c.len() == 1 && c[0] == '.';
        let is_dots = c.len() == 2 && c[0] == '.' && c[1] == '.';
        proof {
            if cv == root_comp(true) {
                assert(cv.len() == 1 && cv[0] == '\\');
            }
            if is_root {
                assert(cv =~= root_comp(true));
            }
            if cv == seq!['.'] {
                assert(cv.len() == 1 && cv[0] == '.');
            }
            if is_dot {
                assert(cv =~= seq!['.']);
            }
            if cv == seq!['.', '.'] {
                assert(cv.len() == 2 && cv[0] == '.' && cv[1] == '.');
            }
            if is_dots {
                assert(cv =~= seq!['.', '.']);
            }
        }
        if is_root {
            buf.truncate(1);
            let r = vec!['\\'];
            proof {
                assert(r@ =~= root_comp(true));
            }
            buf.push(r);
            proof {
                assert(comps_view(buf@) =~= before.take(1).push(cv));
            }
        } else if is_dot {
        } else if is_dots {
            if buf.len() > 1 && is_normal_exec(&buf[buf.len() - 1]) {
                buf.pop();
                proof {
                    assert(comps_view(buf@) =~= before.drop_last());
                }
            }
        } else {
            let copy = slice_copy(c, 0, c.len());
            proof {
                assert(copy@ =~= cv);
            }
            buf.push(copy);
            proof {
                assert(comps_view(buf@) =~= before.push(cv));
            }
        }
        proof {
            assert(comps_view(buf@) == push_comp(before, cv));
        }
        i = i + 1;
    }
    proof {
        assert(csv.skip(cs@.len() as int) =~= Seq::<Seq<char>>::empty());
    }
    let b = crate::text::chars_of(base);
    let pre = win_prefix_exec(&b);
    proof {
        lemma_prefix_bounds(b@, true);
    }
    let plen = match pre {
        Some(p) => p.len,
        None => 0,
    };
    let mut out = slice_copy(&b, 0, plen);
    proof {
        assert(out@ =~= base@.take(prefix_len(base@, true)));
    }
    let ghost head = out@;
    let ghost fin = comps_view(buf@);
    let mut need_sep = true;
    let mut k: usize = 1;
    proof {
        assert(fin.skip(k as int) =~= fin.skip(1));
        assert(head + render(fin.skip(1), true) == out@ + render(fin.skip(k as int), need_sep));
    }
    while k < buf.len()
        invariant
            fin == comps_view(buf@),
            1 <= k <= buf@.len(),
            head + render(fin.skip(1), true) == out@ + render(fin.skip(k as int), need_sep),
        decreases buf@.len() - k,
    {
        let c = &buf[k];
        let ghost before = out@;
        let ghost cv = c@;
        proof {
            assert(fin.skip(k as int)[0] == cv);
            assert(fin.skip(k as int).drop_first() =~= fin.skip(k + 1));
        }
        let is_root = c.len() == 1 && c[0] == '\\';
        proof {
            if cv == root_comp(true) {
                assert(cv.len() == 1 && cv[0] == '\\');
            }
            if is_root {
                assert(cv =~= root_comp(true));
            }
        }
        if need_sep && !is_root {
            out.push('\\');
        }
        push_all(&mut out, c);
        proof {
            let sep: Seq<char> = if need_sep && cv != root_comp(true) {
                seq!['\\']
            } else {
                Seq::empty()
            };
            assert(out@ =~= before + sep + cv);
            assert(render(fin.skip(k as int), need_sep) == sep + cv + render(fin.skip(k + 1), cv != root_comp(true)));
            assert(before + render(fin.skip(k as int), need_sep) =~= out@ + render(fin.skip(k + 1), cv != root_comp(true)));
        }
        need_sep = !is_root;
        k = k + 1;
    }
    proof {
        assert(fin.skip(k as int) =~= Seq::<Seq<char>>::empty());
        assert(out@ =~= head + render(fin.skip(1), true));
    }
    out
}

/// `rel` joined to `base`.
pub fn join_path(base: &str, rel: &str, windows: bool) -> (r: String)
    ensures
        r@ == join(base@, rel@, windows),
{
    let b = crate::text::chars_of(base);
    let q = crate::text::chars_of(rel);
    let rel_prefix = if windows {
        win_prefix_exec(&q)
    } else {
        None
    };
    if is_absolute_exec(&q, windows) || rel_prefix.is_some() {
        return rel.to_owned();
    }
    let base_prefix = if windows {
        win_prefix_exec(&b)
    } else {
        None
    };
    proof {
        lemma_prefix_bounds(b@, windows);
    }
    let verbatim_base = match &base_prefix {
        Some(p) => p.verbatim,
        None => false,
    };
    if windows && verbatim_base && q.len() > 0 {
        return crate::text::string_of(&verbatim_join_exec(base, rel));
    }
    let plen = match &base_prefix {
        Some(p) => p.len,
        None => 0,
    };
    let mut r: Vec<char>;
    if windows && q.len() > 0 && win_sep(q[0]) {
        r = slice_copy(&b, 0, plen);
        push_all(&mut r, &q);
        proof {
            assert(r@ =~= base@.take(prefix_len(base@, true)) + rel@);
        }
    } else {
        let bare_drive = match &base_prefix {
            Some(p) => p.disk && p.len == b.len(),
            None => false,
        };
        let needs = b.len() > 0 && !(b[b.len() - 1] == '/' || (windows && b[b.len() - 1] == '\\'))
            && !(windows && bare_drive);
        r = slice_copy(&b, 0, b.len());
        if needs {
            r.push(
                if windows {
                    '\\'
                } else {
                    '/'
                },
            );
        }
        push_all(&mut r, &q);
        proof {
            assert(needs == join_needs_sep(base@, windows));
            if needs {
                assert(r@ =~= base@ + seq![
                    if windows {
                        '\\'
                    } else {
                        '/'
                    },
                ] + rel@);
            } else {
                assert(r@ =~= base@ + rel@);
            }
        }
    }
    crate::text::string_of(&r)
}

} // verus!

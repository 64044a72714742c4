//! Character-level text helpers with their specifications.
//!
//! Text is modelled as `Seq<char>`, the view of `str` and `String`.  The
//! executable helpers work on `Vec<char>` and are proved against the spec
//! functions of this module.
use vstd::prelude::*;

verus! {

broadcast use vstd::string::group_string_axioms;

/// The Unicode `White_Space` property, which `char::is_whitespace` tests.
pub open spec fn is_ws(c: char) -> bool {
    let u = c as u32;
    ||| 0x09 <= u <= 0x0D
    ||| u == 0x20
    ||| u == 0x85
    ||| u == 0xA0
    ||| u == 0x1680
    ||| 0x2000 <= u <= 0x200A
    ||| u == 0x2028
    ||| u == 0x2029
    ||| u == 0x202F
    ||| u == 0x205F
    ||| u == 0x3000
}

pub open spec fn is_digit(c: char) -> bool {
    '0' <= c <= '9'
}

pub open spec fn is_alpha(c: char) -> bool {
    ('a' <= c <= 'z') || ('A' <= c <= 'Z')
}

pub open spec fn is_alnum(c: char) -> bool {
    is_digit(c) || is_alpha(c)
}

pub fn char_is_ws(c: char) -> (r: bool)
    ensures
        r == is_ws(c),
{
    let u = c as u32;
    (0x09 <= u && u <= 0x0D) || u == 0x20 || u == 0x85 || u == 0xA0 || u == 0x1680 || (0x2000
        <= u && u <= 0x200A) || u == 0x2028 || u == 0x2029 || u == 0x202F || u == 0x205F || u
        == 0x3000
}

pub fn char_is_digit(c: char) -> (r: bool)
    ensures
        r == is_digit(c),
{
    '0' <= c && c <= '9'
}

pub fn char_is_alpha(c: char) -> (r: bool)
    ensures
        r == is_alpha(c),
{
    ('a' <= c && c <= 'z') || ('A' <= c && c <= 'Z')
}

pub fn char_is_alnum(c: char) -> (r: bool)
    ensures
        r == is_alnum(c),
{
    ('0' <= c && c <= '9') || ('a' <= c && c <= 'z') || ('A' <= c && c <= 'Z')
}

/// The characters of a string slice, in order.
pub fn chars_of(s: &str) -> (v: Vec<char>)
    ensures
        v@ == s@,
{
    let mut v: Vec<char> = Vec::new();
    for c in it: s.chars()
        invariant
            v@ == it.seq().take(it.index()),
    {
        v.push(c);
    }
    v
}

/// Builds a `String` from characters (std's `FromIterator<char> for String`).
#[verifier::external_body]
pub(crate) fn string_of(v: &[char]) -> (s: String)
    ensures
        s@ == v@,
{
    v.iter().collect()
}

/// A copy of `v[a..b]`.
pub fn slice_copy(v: &[char], a: usize, b: usize) -> (r: Vec<char>)
    requires
        a <= b <= v@.len(),
    ensures
        r@ == v@.subrange(a as int, b as int),
{
    let mut r: Vec<char> = Vec::new();
    let mut i = a;
    while i < b
        invariant
            a <= i <= b <= v@.len(),
            r@ == v@.subrange(a as int, i as int),
        decreases b - i,
    {
        r.push(v[i]);
        i = i + 1;
    }
    r
}

/// Appends `src` to `dst`.
pub fn push_all(dst: &mut Vec<char>, src: &[char])
    ensures
        final(dst)@ == old(dst)@ + src@,
{
    let mut i: usize = 0;
    while i < src.len()
        invariant
            0 <= i <= src@.len(),
            dst@ == old(dst)@ + src@.take(i as int),
        decreases src@.len() - i,
    {
        dst.push(src[i]);
        i = i + 1;
        proof {
            assert(src@.take(i as int) == src@.take(i - 1 as int).push(src@[i - 1]));
        }
    }
    proof {
        assert(src@.take(src@.len() as int) == src@);
    }
}

/// The text of `a` followed by that of `b`.
pub fn cat(a: &str, b: &str) -> (r: String)
    ensures
        r@ == a@ + b@,
{
    let mut v = chars_of(a);
    push_all(&mut v, &chars_of(b));
    string_of(&v)
}

/// Equality of two character sequences.
pub fn chars_eq(a: &[char], b: &[char]) -> (r: bool)
    ensures
        r == (a@ == b@),
{
    if a.len() != b.len() {
        return false;
    }
    let mut i: usize = 0;
    while i < a.len()
        invariant
            a@.len() == b@.len(),
            0 <= i <= a@.len(),
            a@.take(i as int) == b@.take(i as int),
        decreases a@.len() - i,
    {
        if a[i] != b[i] {
            proof {
                assert(a@[i as int] != b@[i as int]);
            }
            return false;
        }
        i = i + 1;
        proof {
            assert(a@.take(i as int) == a@.take(i - 1 as int).push(a@[i - 1]));
            assert(b@.take(i as int) == b@.take(i - 1 as int).push(b@[i - 1]));
        }
    }
    proof {
        assert(a@.take(a@.len() as int) == a@);
        assert(b@.take(b@.len() as int) == b@);
    }
    true
}

/// `pat` occurs in `s` at position `i`.
pub open spec fn occurs_at(s: Seq<char>, pat: Seq<char>, i: int) -> bool {
    0 <= i && i + pat.len() <= s.len() && s.subrange(i, i + pat.len()) == pat
}

/// `pat` occurs somewhere in `s`.
pub open spec fn contains(s: Seq<char>, pat: Seq<char>) -> bool {
    exists|i: int| occurs_at(s, pat, i)
}

/// `s` starts with `pat`.
pub open spec fn starts_with(s: Seq<char>, pat: Seq<char>) -> bool {
    occurs_at(s, pat, 0)
}

/// `s` ends with `pat`.
pub open spec fn ends_with(s: Seq<char>, pat: Seq<char>) -> bool {
    occurs_at(s, pat, s.len() - pat.len())
}

/// The first position at or after `k` where `pat` occurs (what `str::find` gives from `k`).
pub open spec fn find_from(s: Seq<char>, pat: Seq<char>, k: int) -> Option<int>
    decreases s.len() - k,
{
    if k < 0 || k + pat.len() > s.len() {
        None
    } else if occurs_at(s, pat, k) {
        Some(k)
    } else if k >= s.len() {
        None
    } else {
        find_from(s, pat, k + 1)
    }
}

pub proof fn lemma_find_from(s: Seq<char>, pat: Seq<char>, k: int)
    requires
        0 <= k,
    ensures
        find_from(s, pat, k) matches Some(i) ==> k <= i && occurs_at(s, pat, i) && forall|j: int|
            k <= j < i ==> !occurs_at(s, pat, j),
        find_from(s, pat, k) is None ==> forall|j: int| k <= j ==> !occurs_at(s, pat, j),
    decreases s.len() - k,
{
    if k + pat.len() > s.len() {
    } else if occurs_at(s, pat, k) {
    } else if k >= s.len() {
        assert(pat.len() == 0);
        assert(s.subrange(k, k) =~= pat);
    } else {
        lemma_find_from(s, pat, k + 1);
        assert forall|j: int| k <= j < k + 1 implies !occurs_at(s, pat, j) by {}
    }
}

/// Whether `pat` occurs in `v` at `i`.
pub fn occurs_at_exec(v: &[char], pat: &[char], i: usize) -> (r: bool)
    ensures
        r == occurs_at(v@, pat@, i as int),
{
    if i > v.len() || pat.len() > v.len() - i {
        return false;
    }
    let mut j: usize = 0;
    while j < pat.len()
        invariant
            i + pat@.len() <= v@.len(),
            i + pat.len() <= v.len(),
            0 <= j <= pat@.len(),
            forall|m: int| 0 <= m < j ==> v@[i + m] == pat@[m],
        decreases pat@.len() - j,
    {
        if v[i + j] != pat[j] {
            proof {
                assert(v@.subrange(i as int, i + pat@.len())[j as int] != pat@[j as int]);
            }
            return false;
        }
        j = j + 1;
    }
    proof {
        assert(v@.subrange(i as int, i + pat@.len()) == pat@);
    }
    true
}

/// The first occurrence of `pat` in `v` at or after `k`.
pub fn find_from_exec(v: &[char], pat: &[char], k: usize) -> (r: Option<usize>)
    ensures
        r matches Some(i) ==> find_from(v@, pat@, k as int) == Some(i as int),
        r is None ==> find_from(v@, pat@, k as int) is None,
{
    let mut i = k;
    while i <= v.len() && pat.len() <= v.len() - i
        invariant
            k <= i,
            find_from(v@, pat@, k as int) == find_from(v@, pat@, i as int),
        decreases v@.len() + 1 - i,
    {
        if occurs_at_exec(v, pat, i) {
            return Some(i);
        }
        proof {
            if i == v.len() {
                assert(v@.subrange(i as int, i as int) =~= pat@);
            }
        }
        i = i + 1;
    }
    None
}

/// Strips the characters satisfying `pred` from the front of `s[k..]`: the first index at or
/// after `k` whose character does not satisfy it.
pub open spec fn skip_while(s: Seq<char>, pred: spec_fn(char) -> bool, k: int) -> int
    decreases s.len() - k,
{
    if 0 <= k < s.len() && pred(s[k]) {
        skip_while(s, pred, k + 1)
    } else {
        k
    }
}

/// The last index `e <= k` such that all of `s[e..k]` satisfies `pred`, scanning backwards.
pub open spec fn skip_back_while(s: Seq<char>, pred: spec_fn(char) -> bool, k: int) -> int
    decreases k,
{
    if 0 < k <= s.len() && pred(s[k - 1]) {
        skip_back_while(s, pred, k - 1)
    } else {
        k
    }
}

/// `s` without the characters satisfying `pred` at its start.
pub open spec fn trim_start_by(s: Seq<char>, pred: spec_fn(char) -> bool) -> Seq<char> {
    s.skip(skip_while(s, pred, 0))
}

/// `s` without the characters satisfying `pred` at its end.
pub open spec fn trim_end_by(s: Seq<char>, pred: spec_fn(char) -> bool) -> Seq<char> {
    s.take(skip_back_while(s, pred, s.len() as int))
}

/// `s` without the characters satisfying `pred` at either end.
pub open spec fn trim_by(s: Seq<char>, pred: spec_fn(char) -> bool) -> Seq<char> {
    trim_end_by(trim_start_by(s, pred), pred)
}

/// The predicate `is_ws` as a value.
pub open spec fn ws_pred() -> spec_fn(char) -> bool {
    |c: char| is_ws(c)
}

/// What `str::trim` gives.
pub open spec fn trim(s: Seq<char>) -> Seq<char> {
    trim_by(s, ws_pred())
}

pub proof fn lemma_skip_while(s: Seq<char>, pred: spec_fn(char) -> bool, k: int)
    requires
        0 <= k <= s.len(),
    ensures
        k <= skip_while(s, pred, k) <= s.len(),
        forall|j: int| k <= j < skip_while(s, pred, k) ==> pred(#[trigger] s[j]),
        skip_while(s, pred, k) < s.len() ==> !pred(s[skip_while(s, pred, k)]),
    decreases s.len() - k,
{
    if k < s.len() && pred(s[k]) {
        lemma_skip_while(s, pred, k + 1);
    }
}

pub proof fn lemma_skip_back_while(s: Seq<char>, pred: spec_fn(char) -> bool, k: int)
    requires
        0 <= k <= s.len(),
    ensures
        0 <= skip_back_while(s, pred, k) <= k,
        forall|j: int| skip_back_while(s, pred, k) <= j < k ==> pred(#[trigger] s[j]),
        skip_back_while(s, pred, k) > 0 ==> !pred(s[skip_back_while(s, pred, k) - 1]),
    decreases k,
{
    if 0 < k && pred(s[k - 1]) {
        lemma_skip_back_while(s, pred, k - 1);
    }
}

/// A text that starts and ends with a character other than whitespace is its own trim.
pub proof fn lemma_trim_plain(s: Seq<char>)
    requires
        s.len() > 0,
        !is_ws(s[0]),
        !is_ws(s[s.len() - 1]),
    ensures
        trim(s) == s,
{
    let pred = ws_pred();
    assert(skip_while(s, pred, 0) == 0);
    let t = trim_start_by(s, pred);
    assert(t =~= s);
    assert(skip_back_while(t, pred, t.len() as int) == t.len());
    assert(trim_end_by(t, pred) =~= t);
}

/// The bounds `(a, b)` with `v[a..b] == trim(v)`.
pub fn trim_bounds(v: &[char]) -> (r: (usize, usize))
    ensures
        r.0 <= r.1 <= v@.len(),
        v@.subrange(r.0 as int, r.1 as int) == trim(v@),
{
    let ghost pred = ws_pred();
    let mut a: usize = 0;
    while a < v.len() && char_is_ws(v[a])
        invariant
            pred == ws_pred(),
            0 <= a <= v@.len(),
            skip_while(v@, pred, 0) == skip_while(v@, pred, a as int),
        decreases v@.len() - a,
    {
        proof {
            assert(pred(v@[a as int]));
        }
        a = a + 1;
    }
    let ghost t = v@.skip(a as int);
    let mut b = v.len();
    while b > a && char_is_ws(v[b - 1])
        invariant
            pred == ws_pred(),
            a <= b <= v@.len(),
            t == v@.skip(a as int),
            skip_back_while(t, pred, t.len() as int) == skip_back_while(t, pred, b - a),
        decreases b,
    {
        proof {
            assert(t[b - a - 1] == v@[b - 1]);
            assert(pred(t[b - a - 1]));
        }
        b = b - 1;
    }
    proof {
        assert(skip_while(v@, pred, a as int) == a);
        if b > a {
            assert(t[b - a - 1] == v@[b - 1]);
        }
        assert(skip_back_while(t, pred, b - a) == b - a);
        assert(v@.subrange(a as int, b as int) == t.take(b - a));
    }
    (a, b)
}

/// The trimmed copy of `v`.
pub fn trim_exec(v: &[char]) -> (r: Vec<char>)
    ensures
        r@ == trim(v@),
{
    let (a, b) = trim_bounds(v);
    slice_copy(v, a, b)
}


/// What `str::replace(pat, rep)` gives for the part of `s` from `k` on, for a nonempty `pat`:
/// every leftmost, non-overlapping occurrence of `pat` is replaced by `rep`.
pub open spec fn replace_from(s: Seq<char>, pat: Seq<char>, rep: Seq<char>, k: int) -> Seq<char>
    decreases s.len() - k,
{
    if pat.len() == 0 || k < 0 || k > s.len() {
        s.skip(k)
    } else {
        match find_from(s, pat, k) {
            Some(i) => if k <= i && i + pat.len() <= s.len() {
                s.subrange(k, i) + rep + replace_from(s, pat, rep, i + pat.len())
            } else {
                s.skip(k)
            },
            None => s.skip(k),
        }
    }
}

/// What `str::replace(pat, rep)` gives on `s`, for a nonempty `pat`.
pub open spec fn replace_all(s: Seq<char>, pat: Seq<char>, rep: Seq<char>) -> Seq<char> {
    replace_from(s, pat, rep, 0)
}

/// `s` with every occurrence of the nonempty `pat` replaced by `rep`.
pub fn replace_all_exec(v: &[char], pat: &[char], rep: &[char]) -> (r: Vec<char>)
    requires
        pat@.len() > 0,
    ensures
        r@ == replace_all(v@, pat@, rep@),
{
    let mut out: Vec<char> = Vec::new();
    let mut k: usize = 0;
    loop
        invariant
            pat@.len() > 0,
            k <= v@.len(),
            out@ + replace_from(v@, pat@, rep@, k as int) == replace_all(v@, pat@, rep@),
        decreases v@.len() - k,
    {
        proof {
            lemma_find_from(v@, pat@, k as int);
        }
        match find_from_exec(v, pat, k) {
            None => {
                let rest = slice_copy(v, k, v.len());
                push_all(&mut out, &rest);
                proof {
                    assert(rest@ == v@.skip(k as int));
                }
                return out;
            },
            Some(i) => {
                assert(occurs_at(v@, pat@, i as int));
                assert(i + pat.len() <= v.len());
                let before = slice_copy(v, k, i);
                let ghost old_out = out@;
                push_all(&mut out, &before);
                push_all(&mut out, rep);
                proof {
                    assert(out@ == old_out + (v@.subrange(k as int, i as int) + rep@));
                    assert(out@ + replace_from(v@, pat@, rep@, i + pat@.len()) == old_out + (
                    v@.subrange(k as int, i as int) + rep@ + replace_from(
                        v@,
                        pat@,
                        rep@,
                        i + pat@.len(),
                    )));
                }
                k = i + pat.len();
            },
        }
    }
}

/// The number of leftmost, non-overlapping occurrences of the nonempty `pat` in `s[k..]`, as
/// `str::matches(pat).count()` gives it.
pub open spec fn count_from(s: Seq<char>, pat: Seq<char>, k: int) -> nat
    decreases s.len() - k,
{
    if pat.len() == 0 || k < 0 || k > s.len() {
        0
    } else {
        match find_from(s, pat, k) {
            Some(i) => if k <= i && i + pat.len() <= s.len() {
                1 + count_from(s, pat, i + pat.len())
            } else {
                0
            },
            None => 0,
        }
    }
}

/// The number of occurrences of the nonempty `pat` in `s`.
pub open spec fn count_all(s: Seq<char>, pat: Seq<char>) -> nat {
    count_from(s, pat, 0)
}

/// There are no more occurrences than characters.
pub proof fn lemma_count_bound(s: Seq<char>, pat: Seq<char>, k: int)
    requires
        pat.len() > 0,
        0 <= k <= s.len(),
    ensures
        count_from(s, pat, k) <= s.len() - k,
    decreases s.len() - k,
{
    lemma_find_from(s, pat, k);
    match find_from(s, pat, k) {
        Some(i) => {
            if k <= i && i + pat.len() <= s.len() {
                lemma_count_bound(s, pat, i + pat.len());
            }
        },
        None => {},
    }
}

/// The number of occurrences of the nonempty `pat` in `v`.
pub fn count_matches(v: &[char], pat: &[char]) -> (r: usize)
    requires
        pat@.len() > 0,
    ensures
        r == count_all(v@, pat@),
{
    let mut n: usize = 0;
    let mut k: usize = 0;
    proof {
        lemma_count_bound(v@, pat@, 0);
    }
    loop
        invariant
            pat@.len() > 0,
            k <= v@.len(),
            n + count_from(v@, pat@, k as int) == count_all(v@, pat@),
            count_all(v@, pat@) <= v@.len(),
        decreases v@.len() - k,
    {
        proof {
            lemma_find_from(v@, pat@, k as int);
        }
        match find_from_exec(v, pat, k) {
            None => {
                return n;
            },
            Some(i) => {
                assert(occurs_at(v@, pat@, i as int));
                assert(i + pat.len() <= v.len());
                assert(count_from(v@, pat@, k as int) == 1 + count_from(v@, pat@, i + pat@.len()));
                n = n + 1;
                k = i + pat.len();
            },
        }
    }
}

/// No character of `s` is `c`.
pub open spec fn lacks_char(s: Seq<char>, c: char) -> bool {
    forall|j: int| 0 <= j < s.len() ==> s[j] != c
}

/// Every character of `s` is `c`.
pub open spec fn all_char(s: Seq<char>, c: char) -> bool {
    forall|j: int| 0 <= j < s.len() ==> s[j] == c
}

/// An occurrence of `q` in `a + r + b`, where `r` is a nonempty run of `c` and `q` holds no `c`,
/// lies inside `a` or inside `b`.
proof fn lemma_occurrence_avoids_run(
    a: Seq<char>,
    r: Seq<char>,
    b: Seq<char>,
    q: Seq<char>,
    c: char,
    m: int,
)
    requires
        r.len() > 0,
        all_char(r, c),
        lacks_char(q, c),
        q.len() > 0,
        occurs_at(a + r + b, q, m),
    ensures
        m + q.len() <= a.len() ==> occurs_at(a, q, m),
        m + q.len() > a.len() ==> m >= a.len() + r.len() && occurs_at(b, q, m - a.len() - r.len()),
{
    let x = a + r + b;
    assert(forall|j: int| 0 <= j < q.len() ==> x[m + j] == #[trigger] q[j]) by {
        assert forall|j: int| 0 <= j < q.len() implies x[m + j] == #[trigger] q[j] by {
            assert(x.subrange(m, m + q.len())[j] == x[m + j]);
        }
    }
    if m + q.len() <= a.len() {
        assert(a.subrange(m, m + q.len()) =~= q);
    } else if m < a.len() + r.len() {
        let t = if m < a.len() {
            a.len() as int
        } else {
            m
        };
        assert(x[t] == r[t - a.len()]);
        assert(x[m + (t - m)] == q[t - m]);
        assert(false);
    } else {
        let o = m - a.len() - r.len();
        assert(b.subrange(o, o + q.len()) =~= q) by {
            assert forall|j: int| 0 <= j < q.len() implies b.subrange(o, o + q.len())[j] == q[j] by {
                assert(x[m + j] == b[o + j]);
            }
        }
    }
}

/// Replacing every occurrence of `pat` by a nonempty run of a character that `pat` lacks
/// leaves no occurrence of `pat`.
pub proof fn lemma_replace_removes(
    s: Seq<char>,
    pat: Seq<char>,
    rep: Seq<char>,
    c: char,
    k: int,
    m: int,
)
    requires
        pat.len() > 0,
        rep.len() > 0,
        all_char(rep, c),
        lacks_char(pat, c),
        0 <= k <= s.len(),
    ensures
        !occurs_at(replace_from(s, pat, rep, k), pat, m),
    decreases s.len() - k,
{
    lemma_find_from(s, pat, k);
    match find_from(s, pat, k) {
        None => {
            if occurs_at(s.skip(k), pat, m) {
                assert(s.subrange(k + m, k + m + pat.len()) =~= s.skip(k).subrange(
                    m,
                    m + pat.len(),
                ));
                assert(occurs_at(s, pat, k + m));
            }
        },
        Some(i) => {
            let a = s.subrange(k, i);
            let b = replace_from(s, pat, rep, i + pat.len());
            if occurs_at(a + rep + b, pat, m) {
                lemma_occurrence_avoids_run(a, rep, b, pat, c, m);
                if m + pat.len() <= a.len() {
                    assert(s.subrange(k + m, k + m + pat.len()) =~= a.subrange(m, m + pat.len()));
                    assert(occurs_at(s, pat, k + m));
                } else {
                    lemma_replace_removes(s, pat, rep, c, i + pat.len(), m - a.len() - rep.len());
                }
            }
        },
    }
}

/// Replacing occurrences of `pat` by a nonempty run of a character that `q` lacks creates no
/// occurrence of `q` in the part of `s` from `k` on.
pub proof fn lemma_replace_keeps_absent(
    s: Seq<char>,
    pat: Seq<char>,
    rep: Seq<char>,
    c: char,
    q: Seq<char>,
    k: int,
    m: int,
)
    requires
        pat.len() > 0,
        rep.len() > 0,
        q.len() > 0,
        all_char(rep, c),
        lacks_char(q, c),
        0 <= k <= s.len(),
        forall|j: int| k <= j ==> !occurs_at(s, q, j),
    ensures
        !occurs_at(replace_from(s, pat, rep, k), q, m),
    decreases s.len() - k,
{
    lemma_find_from(s, pat, k);
    match find_from(s, pat, k) {
        None => {
            if occurs_at(s.skip(k), q, m) {
                assert(s.subrange(k + m, k + m + q.len()) =~= s.skip(k).subrange(m, m + q.len()));
                assert(occurs_at(s, q, k + m));
            }
        },
        Some(i) => {
            let a = s.subrange(k, i);
            let b = replace_from(s, pat, rep, i + pat.len());
            if occurs_at(a + rep + b, q, m) {
                lemma_occurrence_avoids_run(a, rep, b, q, c, m);
                if m + q.len() <= a.len() {
                    assert(s.subrange(k + m, k + m + q.len()) =~= a.subrange(m, m + q.len()));
                    assert(occurs_at(s, q, k + m));
                } else {
                    lemma_replace_keeps_absent(
                        s,
                        pat,
                        rep,
                        c,
                        q,
                        i + pat.len(),
                        m - a.len() - rep.len(),
                    );
                }
            }
        },
    }
}


/// A character with ASCII upper case letters made lower case.
pub open spec fn lower_char(c: char) -> char {
    if 'A' <= c <= 'Z' {
        ((c as u32) + 32) as char
    } else {
        c
    }
}

/// What `str::to_ascii_lowercase` gives.
pub open spec fn ascii_lowercase(s: Seq<char>) -> Seq<char> {
    Seq::new(s.len(), |i: int| lower_char(s[i]))
}

pub fn ascii_lowercase_exec(v: &[char]) -> (r: Vec<char>)
    ensures
        r@ == ascii_lowercase(v@),
{
    let mut r: Vec<char> = Vec::new();
    let mut i: usize = 0;
    while i < v.len()
        invariant
            0 <= i <= v@.len(),
            r@ == ascii_lowercase(v@).take(i as int),
        decreases v@.len() - i,
    {
        let c = v[i];
        let l = if 'A' <= c && c <= 'Z' {
            ((c as u8) + 32) as char
        } else {
            c
        };
        proof {
            if 'A' <= c && c <= 'Z' {
                assert(((c as u8) + 32) as char == lower_char(c));
            }
        }
        r.push(l);
        i = i + 1;
        proof {
            assert(r@ =~= ascii_lowercase(v@).take(i as int));
        }
    }
    proof {
        assert(r@ =~= ascii_lowercase(v@));
    }
    r
}


/// The order of `String`: character by character, by code point, a proper prefix first.
pub open spec fn text_less(a: Seq<char>, b: Seq<char>) -> bool
    decreases a.len(),
{
    if a.len() == 0 {
        b.len() > 0
    } else if b.len() == 0 {
        false
    } else if a[0] != b[0] {
        a[0] < b[0]
    } else {
        text_less(a.drop_first(), b.drop_first())
    }
}

/// Whether `a` comes before `b` in the order of `String`.
pub fn text_less_exec(a: &[char], b: &[char]) -> (r: bool)
    ensures
        r == text_less(a@, b@),
{
    let mut i: usize = 0;
    proof {
        assert(a@.skip(0) =~= a@);
        assert(b@.skip(0) =~= b@);
    }
    while i < a.len() && i < b.len()
        invariant
            0 <= i <= a@.len(),
            i <= b@.len(),
            text_less(a@, b@) == text_less(a@.skip(i as int), b@.skip(i as int)),
        decreases a@.len() - i,
    {
        if a[i] != b[i] {
            return a[i] < b[i];
        }
        proof {
            assert(a@.skip(i as int).drop_first() =~= a@.skip(i + 1));
            assert(b@.skip(i as int).drop_first() =~= b@.skip(i + 1));
        }
        i = i + 1;
    }
    a.len() < b.len()
}


} // verus!

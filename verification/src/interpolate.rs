//! `{{ name }}` interpolation of input values and masking of secret values.
use vstd::prelude::*;
use crate::text::{
    all_char, chars_eq, chars_of, find_from, find_from_exec, lacks_char, lemma_find_from,
    lemma_replace_keeps_absent, lemma_replace_removes, occurs_at, push_all, replace_all,
    replace_all_exec, slice_copy, string_of, trim, trim_bounds,
};

verus! {

/// Input values, as the pairs `(name, value)` of an association list.
pub open spec fn pairs_view(v: Seq<(String, String)>) -> Seq<(Seq<char>, Seq<char>)> {
    v.map_values(|p: (String, String)| (p.0@, p.1@))
}

/// The value bound to `key`: that of the first pair whose name is `key`.
pub open spec fn lookup(kvs: Seq<(Seq<char>, Seq<char>)>, key: Seq<char>) -> Option<Seq<char>>
    decreases kvs.len(),
{
    if kvs.len() == 0 {
        None
    } else if kvs[0].0 == key {
        Some(kvs[0].1)
    } else {
        lookup(kvs.drop_first(), key)
    }
}

/// The position of the first pair whose name is `key`.
pub fn lookup_index(values: &[(String, String)], key: &[char]) -> (r: Option<usize>)
    ensures
        r is None ==> lookup(pairs_view(values@), key@) is None,
        r matches Some(i) ==> i < values@.len() && lookup(pairs_view(values@), key@) == Some(
            values@[i as int].1@,
        ),
{
    let ghost all = pairs_view(values@);
    let mut i: usize = 0;
    proof {
        assert(all.skip(0) =~= all);
    }
    while i < values.len()
        invariant
            0 <= i <= values@.len(),
            all == pairs_view(values@),
            lookup(all, key@) == lookup(all.skip(i as int), key@),
        decreases values@.len() - i,
    {
        let name = chars_of(values[i].0.as_str());
        proof {
            assert(all.skip(i as int)[0] == all[i as int]);
        }
        if chars_eq(&name, key) {
            return Some(i);
        }
        proof {
            assert(all.skip(i as int).drop_first() =~= all.skip(i + 1));
        }
        i = i + 1;
    }
    None
}

/// Why an interpolation failed.
#[derive(Debug, Clone, PartialEq, Eq)]
pub enum InterpolateError {
    /// A `{{` has no matching `}}`.
    Unterminated,
    /// The text between `{{` and `}}` is blank.
    EmptyExpression,
    /// No value is bound to the name.
    MissingValue(String),
}

pub enum SpecInterpolateError {
    Unterminated,
    EmptyExpression,
    MissingValue(Seq<char>),
}

impl View for InterpolateError {
    type V = SpecInterpolateError;

    open spec fn view(&self) -> SpecInterpolateError {
        match self {
            InterpolateError::Unterminated => SpecInterpolateError::Unterminated,
            InterpolateError::EmptyExpression => SpecInterpolateError::EmptyExpression,
            InterpolateError::MissingValue(k) => SpecInterpolateError::MissingValue(k@),
        }
    }
}

pub open spec fn open_braces() -> Seq<char> {
    seq!['{', '{']
}

pub open spec fn close_braces() -> Seq<char> {
    seq!['}', '}']
}

/// Interpolation of the part of `t` from `k` on: each `{{ name }}` is replaced by the value
/// bound to the trimmed name, left to right; the first problem met is the error.
pub open spec fn interpolate_from(t: Seq<char>, vals: Seq<(Seq<char>, Seq<char>)>, k: int) -> Result<
    Seq<char>,
    SpecInterpolateError,
>
    decreases t.len() - k,
{
    if k < 0 || k > t.len() {
        Ok(t.skip(k))
    } else {
        match find_from(t, open_braces(), k) {
            None => Ok(t.skip(k)),
            Some(i) => if !(k <= i && i + 2 <= t.len()) {
                Ok(t.skip(k))
            } else {
                match find_from(t, close_braces(), i + 2) {
                    None => Err(SpecInterpolateError::Unterminated),
                    Some(j) => if !(i + 2 <= j && j + 2 <= t.len()) {
                        Err(SpecInterpolateError::Unterminated)
                    } else {
                        let key = trim(t.subrange(i + 2, j));
                        if key.len() == 0 {
                            Err(SpecInterpolateError::EmptyExpression)
                        } else {
                            match lookup(vals, key) {
                                None => Err(SpecInterpolateError::MissingValue(key)),
                                Some(v) => match interpolate_from(t, vals, j + 2) {
                                    Err(e) => Err(e),
                                    Ok(rest) => Ok(t.subrange(k, i) + v + rest),
                                },
                            }
                        }
                    },
                }
            },
        }
    }
}

/// What `interpolate` computes.
pub open spec fn interpolation(t: Seq<char>, vals: Seq<(Seq<char>, Seq<char>)>) -> Result<
    Seq<char>,
    SpecInterpolateError,
> {
    interpolate_from(t, vals, 0)
}

fn open_braces_exec() -> (r: Vec<char>)
    ensures
        r@ == open_braces(),
{
    let mut r: Vec<char> = Vec::new();
    r.push('{');
    r.push('{');
    proof {
        assert(r@ =~= open_braces());
    }
    r
}

fn close_braces_exec() -> (r: Vec<char>)
    ensures
        r@ == close_braces(),
{
    let mut r: Vec<char> = Vec::new();
    r.push('}');
    r.push('}');
    proof {
        assert(r@ =~= close_braces());
    }
    r
}

/// Interpolation over characters.
pub fn interpolate_chars(t: &[char], values: &[(String, String)]) -> (r: Result<
    Vec<char>,
    InterpolateError,
>)
    ensures
        match r {
            Ok(v) => interpolation(t@, pairs_view(values@)) == Ok::<Seq<char>, SpecInterpolateError>(v@),
            Err(e) => interpolation(t@, pairs_view(values@)) == Err::<Seq<char>, SpecInterpolateError>(e@),
        },
{
    let ghost vals = pairs_view(values@);
    let open = open_braces_exec();
    let close = close_braces_exec();
    let mut out: Vec<char> = Vec::new();
    let mut k: usize = 0;
    loop
        invariant
            vals == pairs_view(values@),
            open@ == open_braces(),
            close@ == close_braces(),
            k <= t@.len(),
            forall|rest: Seq<char>|
                interpolate_from(t@, vals, k as int) == Ok::<Seq<char>, SpecInterpolateError>(rest)
                    ==> #[trigger] interpolation(t@, vals) == Ok::<Seq<char>, SpecInterpolateError>(out@ + rest),
            forall|e: SpecInterpolateError|
                interpolate_from(t@, vals, k as int) == Err::<Seq<char>, SpecInterpolateError>(e)
                    ==> #[trigger] interpolation(t@, vals) == Err::<Seq<char>, SpecInterpolateError>(e),
        decreases t@.len() - k,
    {
        proof {
            lemma_find_from(t@, open@, k as int);
        }
        match find_from_exec(t, &open, k) {
            None => {
                let rest = slice_copy(t, k, t.len());
                push_all(&mut out, &rest);
                return Ok(out);
            },
            Some(i) => {
                assert(occurs_at(t@, open@, i as int));
                assert(i + 2 <= t.len());
                proof {
                    lemma_find_from(t@, close@, i + 2);
                }
                let j = match find_from_exec(t, &close, i + 2) {
                    None => {
                        return Err(InterpolateError::Unterminated);
                    },
                    Some(j) => j,
                };
                assert(occurs_at(t@, close@, j as int));
                let (a, b) = trim_bounds(&t[i + 2..j]);
                if a == b {
                    return Err(InterpolateError::EmptyExpression);
                }
                let key = slice_copy(&t[i + 2..j], a, b);
                match lookup_index(values, &key) {
                    None => {
                        return Err(InterpolateError::MissingValue(string_of(&key)));
                    },
                    Some(idx) => {
                        let before = slice_copy(t, k, i);
                        let value = chars_of(values[idx].1.as_str());
                        let ghost old_out = out@;
                        push_all(&mut out, &before);
                        push_all(&mut out, &value);
                        proof {
                            assert(out@ == old_out + t@.subrange(k as int, i as int) + value@);
                            assert forall|rest: Seq<char>|
                                interpolate_from(t@, vals, j + 2) == Ok::<Seq<char>, SpecInterpolateError>(rest)
                                    implies #[trigger] interpolation(t@, vals) == Ok::<Seq<char>, SpecInterpolateError>(out@ + rest) by {
                                assert(old_out + (t@.subrange(k as int, i as int) + value@ + rest) == out@ + rest);
                            }
                        }
                        k = j + 2;
                    },
                }
            },
        }
    }
}

/// Replaces each `{{ name }}` in `template` by the value bound to `name`.
pub fn interpolate(template: &str, values: &[(String, String)]) -> (r: Result<String, InterpolateError>)
    ensures
        match r {
            Ok(s) => interpolation(template@, pairs_view(values@)) == Ok::<Seq<char>, SpecInterpolateError>(s@),
            Err(e) => interpolation(template@, pairs_view(values@)) == Err::<Seq<char>, SpecInterpolateError>(e@),
        },
{
    let t = chars_of(template);
    match interpolate_chars(&t, values) {
        Ok(v) => Ok(string_of(&v)),
        Err(e) => Err(e),
    }
}

/// The text that stands for a secret value.
pub open spec fn mask_text() -> Seq<char> {
    seq!['*', '*', '*', '*', '*', '*', '*', '*']
}

/// `t` after masking each nonempty secret in turn.
pub open spec fn masked(t: Seq<char>, secrets: Seq<Seq<char>>) -> Seq<char>
    decreases secrets.len(),
{
    if secrets.len() == 0 {
        t
    } else {
        let s = secrets[0];
        let t1 = if s.len() == 0 {
            t
        } else {
            replace_all(t, s, mask_text())
        };
        masked(t1, secrets.drop_first())
    }
}

pub open spec fn strings_view(v: Seq<String>) -> Seq<Seq<char>> {
    v.map_values(|s: String| s@)
}

fn mask_text_exec() -> (r: Vec<char>)
    ensures
        r@ == mask_text(),
{
    let mut r: Vec<char> = Vec::new();
    let mut i: usize = 0;
    while i < 8
        invariant
            0 <= i <= 8,
            r@.len() == i,
            all_char(r@, '*'),
        decreases 8 - i,
    {
        r.push('*');
        i = i + 1;
    }
    proof {
        assert(r@ =~= mask_text());
    }
    r
}

/// Replaces every occurrence of each nonempty secret with `********`.
pub fn mask_secrets(text: &str, secrets: &[String]) -> (r: String)
    ensures
        r@ == masked(text@, strings_view(secrets@)),
{
    let stars = mask_text_exec();
    let mut cur = chars_of(text);
    let ghost all = strings_view(secrets@);
    let mut i: usize = 0;
    proof {
        assert(all.skip(0) =~= all);
    }
    while i < secrets.len()
        invariant
            0 <= i <= secrets@.len(),
            all == strings_view(secrets@),
            stars@ == mask_text(),
            masked(text@, all) == masked(cur@, all.skip(i as int)),
        decreases secrets@.len() - i,
    {
        let secret = chars_of(secrets[i].as_str());
        proof {
            assert(all.skip(i as int)[0] == secret@);
            assert(all.skip(i as int).drop_first() =~= all.skip(i + 1));
        }
        if secret.len() > 0 {
            cur = replace_all_exec(&cur, &secret, &stars);
        }
        i = i + 1;
    }
    proof {
        assert(all.skip(i as int) =~= Seq::<Seq<char>>::empty());
    }
    string_of(&cur)
}

proof fn lemma_masked_keeps_absent(t: Seq<char>, secrets: Seq<Seq<char>>, q: Seq<char>, m: int)
    requires
        q.len() > 0,
        lacks_char(q, '*'),
        forall|j: int| !occurs_at(t, q, j),
    ensures
        !occurs_at(masked(t, secrets), q, m),
    decreases secrets.len(),
{
    if secrets.len() > 0 {
        let s = secrets[0];
        let t1 = if s.len() == 0 {
            t
        } else {
            replace_all(t, s, mask_text())
        };
        if s.len() > 0 {
            assert forall|j: int| !occurs_at(t1, q, j) by {
                lemma_replace_keeps_absent(t, s, mask_text(), '*', q, 0, j);
            }
        }
        lemma_masked_keeps_absent(t1, secrets.drop_first(), q, m);
    }
}

/// Secret values are masked everywhere: after masking, no secret that is nonempty and holds
/// no `*` occurs anywhere in the text.
pub proof fn lemma_masked_hides_secrets(t: Seq<char>, secrets: Seq<Seq<char>>, idx: int, m: int)
    requires
        0 <= idx < secrets.len(),
        secrets[idx].len() > 0,
        lacks_char(secrets[idx], '*'),
    ensures
        !occurs_at(masked(t, secrets), secrets[idx], m),
    decreases secrets.len(),
{
    let s = secrets[0];
    let t1 = if s.len() == 0 {
        t
    } else {
        replace_all(t, s, mask_text())
    };
    if idx == 0 {
        assert forall|j: int| !occurs_at(t1, s, j) by {
            lemma_replace_removes(t, s, mask_text(), '*', 0, j);
        }
        lemma_masked_keeps_absent(t1, secrets.drop_first(), s, m);
    } else {
        assert(secrets.drop_first()[idx - 1] == secrets[idx]);
        lemma_masked_hides_secrets(t1, secrets.drop_first(), idx - 1, m);
    }
}

/// Masking leaves a text alone when no nonempty secret occurs in it; empty secrets are
/// ignored.
pub proof fn lemma_masked_unchanged(t: Seq<char>, secrets: Seq<Seq<char>>)
    requires
        forall|i: int, j: int|
            0 <= i < secrets.len() && secrets[i].len() > 0 ==> !#[trigger] occurs_at(t, secrets[i], j),
    ensures
        masked(t, secrets) == t,
    decreases secrets.len(),
{
    if secrets.len() > 0 {
        let s = secrets[0];
        if s.len() > 0 {
            lemma_find_from(t, s, 0);
            assert(find_from(t, s, 0) is None) by {
                if let Some(i) = find_from(t, s, 0) {
                    assert(!occurs_at(t, secrets[0], i));
                }
            }
            assert(t.skip(0) =~= t);
        }
        assert forall|i: int, j: int|
            0 <= i < secrets.drop_first().len() && secrets.drop_first()[i].len() > 0 implies !#[trigger] occurs_at(
            t,
            secrets.drop_first()[i],
            j,
        ) by {
            assert(secrets.drop_first()[i] == secrets[i + 1]);
        }
        lemma_masked_unchanged(t, secrets.drop_first());
    }
}

/// Masking twice masks no more than once, when no secret holds `*`: what masking leaves holds
/// no nonempty secret, so a second pass finds nothing to replace.
pub proof fn lemma_masking_idempotent(t: Seq<char>, secrets: Seq<Seq<char>>)
    requires
        forall|i: int| 0 <= i < secrets.len() ==> lacks_char(#[trigger] secrets[i], '*'),
    ensures
        masked(masked(t, secrets), secrets) == masked(t, secrets),
{
    let m = masked(t, secrets);
    assert forall|i: int, j: int|
        0 <= i < secrets.len() && secrets[i].len() > 0 implies !#[trigger] occurs_at(m, secrets[i], j) by {
        lemma_masked_hides_secrets(t, secrets, i, j);
    }
    lemma_masked_unchanged(m, secrets);
}

/// A template without `{{` is its own interpolation, whatever the values.
pub proof fn lemma_interpolation_without_placeholder(
    t: Seq<char>,
    vals: Seq<(Seq<char>, Seq<char>)>,
)
    requires
        forall|i: int| !occurs_at(t, open_braces(), i),
    ensures
        interpolation(t, vals) == Ok::<Seq<char>, SpecInterpolateError>(t),
{
    lemma_find_from(t, open_braces(), 0);
    assert(t.skip(0) =~= t);
}

} // verus!

//! How conditions compose: a condition that evaluates on its own evaluates the same way
//! inside parentheses, and `not`, `&&` and `||` around parenthesised conditions give the
//! negation, conjunction and disjunction of their values.
//!
//! The proofs rest on one fact of the parser: a condition that parses on its own parses to
//! the same expression wherever it stands in a longer text, when a `)` follows it there.
use vstd::prelude::*;
use crate::condition::{and_tail_spec, args_spec, consume_keyword_spec, consume_spec, evaluate_spec, ident_pred, is_ident_char, lit, lit2, not_keyword, or_tail_spec, parse_and_spec, parse_call_spec, parse_identifier_spec, parse_not_spec, parse_or_spec, parse_primary_spec, parse_spec, parse_string_spec, string_body, ws_end, SpecConditionError, SpecContext, SpecExpr, SpecFacts, SpecParsed, SpecParsedString};
use crate::text::{is_ws, lemma_skip_while, occurs_at, skip_while, ws_pred};

verus! {

/// `not (a)`.
pub open spec fn negated(a: Seq<char>) -> Seq<char> {
    seq!['n', 'o', 't', ' ', '('] + a + seq![')']
}

/// `(a)`.
pub open spec fn grouped(a: Seq<char>) -> Seq<char> {
    seq!['('] + a + seq![')']
}

/// `(a) && (b)`.
pub open spec fn conjoined(a: Seq<char>, b: Seq<char>) -> Seq<char> {
    seq!['('] + a + seq![')', ' ', '&', '&', ' ', '('] + b + seq![')']
}

/// `(a) || (b)`.
pub open spec fn disjoined(a: Seq<char>, b: Seq<char>) -> Seq<char> {
    seq!['('] + a + seq![')', ' ', '|', '|', ' ', '('] + b + seq![')']
}

/// `s` holds `a` from `off` on, and a `)` right after it.
pub open spec fn framed(s: Seq<char>, a: Seq<char>, off: int) -> bool {
    &&& 0 <= off
    &&& off + a.len() < s.len()
    &&& forall|i: int| 0 <= i < a.len() ==> s[off + i] == #[trigger] a[i]
    &&& s[off + a.len()] == ')'
}

/// `t` has no `)`.
pub open spec fn no_close(t: Seq<char>) -> bool {
    forall|i: int| 0 <= i < t.len() ==> #[trigger] t[i] != ')'
}

/// A parse of `a` from `p` that succeeded ends within `a`, and the same parse in `s` from
/// `off + p` gives the same expression, ending `off` further.
pub open spec fn shifted(ra: SpecParsed, rs: SpecParsed, p: int, len: int, off: int) -> bool {
    match ra {
        Ok((e, q)) => p <= q <= len && rs == Ok::<(SpecExpr, int), SpecConditionError>((e, off + q)),
        Err(_) => true,
    }
}

pub open spec fn shifted_string(ra: SpecParsedString, rs: SpecParsedString, p: int, len: int, off: int) -> bool {
    match ra {
        Ok((v, q)) => p <= q <= len && rs == Ok::<(Seq<char>, int), SpecConditionError>((v, off + q)),
        Err(_) => true,
    }
}

proof fn lemma_skip_frame(s: Seq<char>, a: Seq<char>, off: int, pred: spec_fn(char) -> bool, p: int)
    requires
        framed(s, a, off),
        !pred(')'),
        0 <= p <= a.len(),
    ensures
        skip_while(s, pred, off + p) == off + skip_while(a, pred, p),
        p <= skip_while(a, pred, p) <= a.len(),
    decreases a.len() - p,
{
    lemma_skip_while(a, pred, p);
    if p < a.len() {
        assert(s[off + p] == a[p]);
        if pred(a[p]) {
            lemma_skip_frame(s, a, off, pred, p + 1);
        }
    }
}

proof fn lemma_ws_frame(s: Seq<char>, a: Seq<char>, off: int, p: int)
    requires
        framed(s, a, off),
        0 <= p <= a.len(),
    ensures
        ws_end(s, off + p) == off + ws_end(a, p),
        p <= ws_end(a, p) <= a.len(),
{
    assert(!is_ws(')'));
    assert(!ws_pred()(')'));
    lemma_skip_frame(s, a, off, ws_pred(), p);
}

proof fn lemma_occurs_within(s: Seq<char>, a: Seq<char>, off: int, t: Seq<char>, q: int)
    requires
        framed(s, a, off),
        0 <= q,
        q + t.len() <= a.len(),
    ensures
        occurs_at(s, t, off + q) == occurs_at(a, t, q),
{
    assert forall|j: int| 0 <= j < t.len() implies #[trigger] s.subrange(off + q, off + q + t.len())[j] == a.subrange(
        q,
        q + t.len(),
    )[j] by {
        assert(s[off + (q + j)] == a[q + j]);
    }
    assert(s.subrange(off + q, off + q + t.len()) =~= a.subrange(q, q + t.len()));
}

proof fn lemma_occurs_frame(s: Seq<char>, a: Seq<char>, off: int, t: Seq<char>, q: int)
    requires
        framed(s, a, off),
        0 <= q <= a.len(),
        no_close(t),
    ensures
        occurs_at(s, t, off + q) == occurs_at(a, t, q),
{
    if q + t.len() <= a.len() {
        lemma_occurs_within(s, a, off, t, q);
    } else if occurs_at(s, t, off + q) {
        let k = a.len() - q;
        assert(s.subrange(off + q, off + q + t.len())[k] == s[off + a.len()]);
        assert(t[k] == ')');
    }
}

proof fn lemma_consume_frame(s: Seq<char>, a: Seq<char>, off: int, p: int, t: Seq<char>)
    requires
        framed(s, a, off),
        0 <= p <= a.len(),
        no_close(t),
    ensures
        consume_spec(s, off + p, t) == (consume_spec(a, p, t).0, off + consume_spec(a, p, t).1),
        p <= consume_spec(a, p, t).1 <= a.len(),
{
    lemma_ws_frame(s, a, off, p);
    lemma_occurs_frame(s, a, off, t, ws_end(a, p));
}

/// Taking `)` agrees wherever it succeeds in `a`, and wherever it fails before the end of `a`.
proof fn lemma_close_frame(s: Seq<char>, a: Seq<char>, off: int, p: int)
    requires
        framed(s, a, off),
        0 <= p <= a.len(),
    ensures
        p <= consume_spec(a, p, lit(')')).1 <= a.len(),
        consume_spec(a, p, lit(')')).0 || consume_spec(a, p, lit(')')).1 < a.len() ==> consume_spec(
            s,
            off + p,
            lit(')'),
        ) == (consume_spec(a, p, lit(')')).0, off + consume_spec(a, p, lit(')')).1),
{
    lemma_ws_frame(s, a, off, p);
    let q = ws_end(a, p);
    if q + 1 <= a.len() {
        lemma_occurs_within(s, a, off, lit(')'), q);
    }
}

proof fn lemma_keyword_frame(s: Seq<char>, a: Seq<char>, off: int, p: int)
    requires
        framed(s, a, off),
        0 <= p <= a.len(),
    ensures
        consume_keyword_spec(s, off + p, not_keyword()) == (
            consume_keyword_spec(a, p, not_keyword()).0,
            off + consume_keyword_spec(a, p, not_keyword()).1,
        ),
        p <= consume_keyword_spec(a, p, not_keyword()).1 <= a.len(),
{
    lemma_ws_frame(s, a, off, p);
    let q = ws_end(a, p);
    let kw = not_keyword();
    assert(no_close(kw));
    lemma_occurs_frame(s, a, off, kw, q);
    if occurs_at(a, kw, q) {
        let e = q + 3;
        if e < a.len() {
            assert(s[off + e] == a[e]);
        } else {
            assert(s[off + e] == ')');
            assert(!is_ident_char(')'));
        }
    }
}

proof fn lemma_identifier_frame(s: Seq<char>, a: Seq<char>, off: int, p: int)
    requires
        framed(s, a, off),
        0 <= p <= a.len(),
    ensures
        shifted_string(parse_identifier_spec(a, p), parse_identifier_spec(s, off + p), p, a.len() as int, off),
{
    lemma_ws_frame(s, a, off, p);
    let q = ws_end(a, p);
    assert(!is_ident_char(')'));
    assert(!ident_pred()(')'));
    lemma_skip_frame(s, a, off, ident_pred(), q);
    let e = skip_while(a, ident_pred(), q);
    assert forall|j: int| 0 <= j < e - q implies #[trigger] s.subrange(off + q, off + e)[j] == a.subrange(q, e)[j] by {
        assert(s[off + (q + j)] == a[q + j]);
    }
    assert(s.subrange(off + q, off + e) =~= a.subrange(q, e));
}

proof fn lemma_string_body_frame(s: Seq<char>, a: Seq<char>, off: int, p: int, quote: char, acc: Seq<char>)
    requires
        framed(s, a, off),
        0 <= p <= a.len(),
    ensures
        shifted_string(string_body(a, p, quote, acc), string_body(s, off + p, quote, acc), p, a.len() as int, off),
    decreases a.len() - p,
{
    if p < a.len() {
        assert(s[off + p] == a[p]);
        if a[p] == quote {
        } else if a[p] == '\\' {
            if p + 1 < a.len() {
                assert(s[off + (p + 1)] == a[p + 1]);
                lemma_string_body_frame(s, a, off, p + 2, quote, acc.push(a[p + 1]));
            }
        } else {
            lemma_string_body_frame(s, a, off, p + 1, quote, acc.push(a[p]));
        }
    }
}

proof fn lemma_string_frame(s: Seq<char>, a: Seq<char>, off: int, p: int)
    requires
        framed(s, a, off),
        0 <= p <= a.len(),
    ensures
        shifted_string(parse_string_spec(a, p), parse_string_spec(s, off + p), p, a.len() as int, off),
{
    lemma_ws_frame(s, a, off, p);
    let q = ws_end(a, p);
    if q < a.len() {
        assert(s[off + q] == a[q]);
        if a[q] == '"' || a[q] == '\'' {
            lemma_string_body_frame(s, a, off, q + 1, a[q], Seq::empty());
        }
    }
}

proof fn lemma_args_frame(s: Seq<char>, a: Seq<char>, off: int, p: int, name: Seq<char>, args: Seq<Seq<char>>)
    requires
        framed(s, a, off),
        0 <= p <= a.len(),
    ensures
        shifted(args_spec(a, p, name, args), args_spec(s, off + p, name, args), p, a.len() as int, off),
    decreases a.len() - p,
{
    lemma_close_frame(s, a, off, p);
    let (closed, q) = consume_spec(a, p, lit(')'));
    if !closed {
        if q < a.len() {
            lemma_string_frame(s, a, off, q);
            match parse_string_spec(a, q) {
                Err(_) => {},
                Ok((v, r)) => {
                    lemma_close_frame(s, a, off, r);
                    let (closed2, q2) = consume_spec(a, r, lit(')'));
                    if !closed2 {
                        assert(no_close(lit(',')));
                        lemma_consume_frame(s, a, off, q2, lit(','));
                        let (comma, q3) = consume_spec(a, q2, lit(','));
                        if q2 == a.len() {
                            lemma_ws_frame(s, a, off, q2);
                        } else if comma && q3 > p {
                            lemma_args_frame(s, a, off, q3, name, args.push(v));
                        }
                    }
                },
            }
        } else {
            lemma_ws_frame(s, a, off, q);
        }
    }
}

proof fn lemma_call_frame(s: Seq<char>, a: Seq<char>, off: int, p: int)
    requires
        framed(s, a, off),
        0 <= p <= a.len(),
    ensures
        shifted(parse_call_spec(a, p), parse_call_spec(s, off + p), p, a.len() as int, off),
{
    lemma_identifier_frame(s, a, off, p);
    match parse_identifier_spec(a, p) {
        Err(_) => {},
        Ok((name, e)) => {
            assert(no_close(lit('(')));
            lemma_consume_frame(s, a, off, e, lit('('));
            let (open, q) = consume_spec(a, e, lit('('));
            if open {
                lemma_args_frame(s, a, off, q, name, Seq::empty());
            }
        },
    }
}

proof fn lemma_or_frame(s: Seq<char>, a: Seq<char>, off: int, p: int)
    requires
        framed(s, a, off),
        0 <= p <= a.len(),
    ensures
        shifted(parse_or_spec(a, p), parse_or_spec(s, off + p), p, a.len() as int, off),
    decreases a.len() - p, 5int,
{
    lemma_and_frame(s, a, off, p);
    match parse_and_spec(a, p) {
        Err(_) => {},
        Ok((l, q)) => {
            lemma_or_tail_frame(s, a, off, q, l);
        },
    }
}

proof fn lemma_or_tail_frame(s: Seq<char>, a: Seq<char>, off: int, p: int, acc: SpecExpr)
    requires
        framed(s, a, off),
        0 <= p <= a.len(),
    ensures
        shifted(or_tail_spec(a, p, acc), or_tail_spec(s, off + p, acc), p, a.len() as int, off),
    decreases a.len() - p, 4int,
{
    assert(no_close(lit2('|', '|')));
    lemma_consume_frame(s, a, off, p, lit2('|', '|'));
    let (found, q) = consume_spec(a, p, lit2('|', '|'));
    if found && q > p {
        lemma_and_frame(s, a, off, q);
        match parse_and_spec(a, q) {
            Err(_) => {},
            Ok((r, q2)) => {
                lemma_or_tail_frame(s, a, off, q2, SpecExpr::Or(Box::new(acc), Box::new(r)));
            },
        }
    }
}

proof fn lemma_and_frame(s: Seq<char>, a: Seq<char>, off: int, p: int)
    requires
        framed(s, a, off),
        0 <= p <= a.len(),
    ensures
        shifted(parse_and_spec(a, p), parse_and_spec(s, off + p), p, a.len() as int, off),
    decreases a.len() - p, 3int,
{
    lemma_not_frame(s, a, off, p);
    match parse_not_spec(a, p) {
        Err(_) => {},
        Ok((l, q)) => {
            lemma_and_tail_frame(s, a, off, q, l);
        },
    }
}

proof fn lemma_and_tail_frame(s: Seq<char>, a: Seq<char>, off: int, p: int, acc: SpecExpr)
    requires
        framed(s, a, off),
        0 <= p <= a.len(),
    ensures
        shifted(and_tail_spec(a, p, acc), and_tail_spec(s, off + p, acc), p, a.len() as int, off),
    decreases a.len() - p, 2int,
{
    assert(no_close(lit2('&', '&')));
    lemma_consume_frame(s, a, off, p, lit2('&', '&'));
    let (found, q) = consume_spec(a, p, lit2('&', '&'));
    if found && q > p {
        lemma_not_frame(s, a, off, q);
        match parse_not_spec(a, q) {
            Err(_) => {},
            Ok((r, q2)) => {
                lemma_and_tail_frame(s, a, off, q2, SpecExpr::And(Box::new(acc), Box::new(r)));
            },
        }
    }
}

proof fn lemma_not_frame(s: Seq<char>, a: Seq<char>, off: int, p: int)
    requires
        framed(s, a, off),
        0 <= p <= a.len(),
    ensures
        shifted(parse_not_spec(a, p), parse_not_spec(s, off + p), p, a.len() as int, off),
    decreases a.len() - p, 1int,
{
    lemma_keyword_frame(s, a, off, p);
    let (found, q) = consume_keyword_spec(a, p, not_keyword());
    if found {
        if q > p {
            lemma_not_frame(s, a, off, q);
        }
    } else {
        lemma_primary_frame(s, a, off, q);
    }
}

proof fn lemma_primary_frame(s: Seq<char>, a: Seq<char>, off: int, p: int)
    requires
        framed(s, a, off),
        0 <= p <= a.len(),
    ensures
        shifted(parse_primary_spec(a, p), parse_primary_spec(s, off + p), p, a.len() as int, off),
    decreases a.len() - p, 0int,
{
    assert(no_close(lit('(')));
    lemma_consume_frame(s, a, off, p, lit('('));
    let (open, q) = consume_spec(a, p, lit('('));
    if open {
        if q > p {
            lemma_or_frame(s, a, off, q);
            match parse_or_spec(a, q) {
                Err(_) => {},
                Ok((e, r)) => {
                    lemma_close_frame(s, a, off, r);
                },
            }
        }
    } else {
        lemma_call_frame(s, a, off, q);
    }
}

/// A whole condition ends, after its trailing whitespace, at the end of its text.
proof fn lemma_whole(a: Seq<char>)
    requires
        parse_spec(a) is Ok,
    ensures
        match parse_or_spec(a, 0) {
            Ok((e, q)) => parse_spec(a) == Ok::<SpecExpr, SpecConditionError>(e) && 0 <= q <= a.len() && ws_end(a, q)
                == a.len(),
            Err(_) => false,
        },
{
    let s = a + seq![')'];
    assert(framed(s, a, 0));
    lemma_or_frame(s, a, 0, 0);
    match parse_or_spec(a, 0) {
        Err(_) => {},
        Ok((e, q)) => {
            lemma_ws_frame(s, a, 0, q);
        },
    }
}

/// A condition that stands framed in `s` at `off`, followed there by `)`, parses there to
/// what it parses to alone, up to the `)`.
proof fn lemma_inner(s: Seq<char>, a: Seq<char>, off: int)
    requires
        framed(s, a, off),
        parse_spec(a) is Ok,
    ensures
        parse_or_spec(s, off) matches Ok((e, q)) && parse_spec(a) == Ok::<SpecExpr, SpecConditionError>(e)
            && ws_end(s, q) == off + a.len() && off <= q,
{
    lemma_whole(a);
    lemma_or_frame(s, a, off, 0);
    match parse_or_spec(a, 0) {
        Err(_) => {},
        Ok((e, q)) => {
            lemma_ws_frame(s, a, off, q);
        },
    }
}

proof fn lemma_at_end(s: Seq<char>, acc: SpecExpr)
    ensures
        ws_end(s, s.len() as int) == s.len(),
        and_tail_spec(s, s.len() as int, acc) == Ok::<(SpecExpr, int), SpecConditionError>((acc, s.len() as int)),
        or_tail_spec(s, s.len() as int, acc) == Ok::<(SpecExpr, int), SpecConditionError>((acc, s.len() as int)),
{
}

/// Parenthesised at `k` in `s`: `(`, then `a` parsing alone to an expression, then `)`.
proof fn lemma_group_at(s: Seq<char>, a: Seq<char>, k: int)
    requires
        0 <= k,
        k + a.len() + 2 <= s.len(),
        s[k] == '(',
        forall|i: int| 0 <= i < a.len() ==> s[k + 1 + i] == #[trigger] a[i],
        s[k + 1 + a.len()] == ')',
        parse_spec(a) is Ok,
    ensures
        parse_primary_spec(s, k) == Ok::<(SpecExpr, int), SpecConditionError>(
            (parse_spec(a)->Ok_0, k + a.len() + 2),
        ),
{
    assert(framed(s, a, k + 1));
    lemma_inner(s, a, k + 1);
    assert(!is_ws('('));
    assert(ws_end(s, k) == k);
    assert(s.subrange(k, k + 1) =~= lit('('));
    assert(s.subrange(k + 1 + a.len(), k + a.len() + 2) =~= lit(')'));
}

/// An operand that starts with `(` at `k`: no `not` there.
proof fn lemma_not_at_paren(s: Seq<char>, k: int, w: int)
    requires
        0 <= w <= k < s.len(),
        s[k] == '(',
        forall|i: int| w <= i < k ==> #[trigger] s[i] == ' ',
        parse_primary_spec(s, k) is Ok,
    ensures
        parse_not_spec(s, w) == parse_primary_spec(s, k),
    decreases k - w,
{
    assert(!is_ws('('));
    assert(is_ws(' '));
    if w < k {
        assert(s[w] == ' ');
        assert(ws_end(s, w) == ws_end(s, w + 1));
        lemma_not_at_paren(s, k, w + 1);
    }
    assert(ws_end(s, w) == k) by {
        lemma_ws_run(s, w, k);
    }
    assert(!occurs_at(s, not_keyword(), k)) by {
        if occurs_at(s, not_keyword(), k) {
            assert(s.subrange(k, k + 3)[0] == 'n');
        }
    }
}

proof fn lemma_ws_run(s: Seq<char>, w: int, k: int)
    requires
        0 <= w <= k < s.len(),
        !is_ws(s[k]),
        forall|i: int| w <= i < k ==> #[trigger] s[i] == ' ',
    ensures
        ws_end(s, w) == k,
    decreases k - w,
{
    assert(is_ws(' '));
    if w < k {
        assert(s[w] == ' ');
        lemma_ws_run(s, w + 1, k);
    }
}

/// `not ` before an operand.
proof fn lemma_not_word(s: Seq<char>, k: int)
    requires
        0 <= k,
        k + 5 <= s.len(),
        s[k] == 'n' && s[k + 1] == 'o' && s[k + 2] == 't' && s[k + 3] == ' ' && s[k + 4] == '(',
        parse_primary_spec(s, k + 4) is Ok,
    ensures
        parse_not_spec(s, k) == Ok::<(SpecExpr, int), SpecConditionError>(
            (SpecExpr::Not(Box::new(parse_primary_spec(s, k + 4)->Ok_0.0)), parse_primary_spec(s, k + 4)->Ok_0.1),
        ),
{
    assert(!is_ws('n'));
    assert(ws_end(s, k) == k);
    assert(s.subrange(k, k + 3) =~= not_keyword());
    assert(!is_ident_char(' '));
    assert(consume_keyword_spec(s, k, not_keyword()) == (true, k + 3));
    lemma_not_at_paren(s, k + 4, k + 3);
}

/// `&&` or `||` at `k + 1`, after a space, then an operand in parentheses after a space.
proof fn lemma_operator(s: Seq<char>, k: int, c: char)
    requires
        0 <= k,
        k + 5 <= s.len(),
        s[k] == ' ' && s[k + 1] == c && s[k + 2] == c && s[k + 3] == ' ' && s[k + 4] == '(',
        c == '&' || c == '|',
    ensures
        ws_end(s, k) == k + 1,
        consume_spec(s, k, lit2(c, c)) == (true, k + 3),
        c == '|' ==> consume_spec(s, k, lit2('&', '&')) == (false, k + 1),
{
    assert(!is_ws(c));
    lemma_ws_run(s, k, k + 1);
    assert(s.subrange(k + 1, k + 3) =~= lit2(c, c));
    if c == '|' {
        assert(!occurs_at(s, lit2('&', '&'), k + 1)) by {
            if occurs_at(s, lit2('&', '&'), k + 1) {
                assert(s.subrange(k + 1, k + 3)[0] == '&');
            }
        }
    }
}

/// The first operand in parentheses at the start, the second one at `k + 5` after an
/// operator at `k + 1`.
proof fn lemma_two_groups(s: Seq<char>, a: Seq<char>, b: Seq<char>, c: char)
    requires
        s.len() == a.len() + b.len() + 8,
        s[0] == '(',
        forall|i: int| 0 <= i < a.len() ==> s[1 + i] == #[trigger] a[i],
        s[1 + a.len() as int] == ')',
        s[2 + a.len() as int] == ' ' && s[3 + a.len() as int] == c && s[4 + a.len() as int] == c && s[5 + a.len() as int] == ' ' && s[6
            + a.len() as int] == '(',
        forall|i: int| 0 <= i < b.len() ==> s[7 + a.len() as int + i] == #[trigger] b[i],
        s[7 + a.len() as int + b.len() as int] == ')',
        c == '&' || c == '|',
        parse_spec(a) is Ok,
        parse_spec(b) is Ok,
    ensures
        parse_not_spec(s, 0) == Ok::<(SpecExpr, int), SpecConditionError>((parse_spec(a)->Ok_0, 2 + a.len() as int)),
        parse_not_spec(s, 5 + a.len() as int) == Ok::<(SpecExpr, int), SpecConditionError>(
            (parse_spec(b)->Ok_0, s.len() as int),
        ),
        consume_spec(s, 2 + a.len() as int, lit2(c, c)) == (true, 5 + a.len() as int),
        c == '|' ==> consume_spec(s, 2 + a.len() as int, lit2('&', '&')) == (false, 3 + a.len() as int),
{
    let la = a.len() as int;
    assert forall|i: int| 0 <= i < a.len() implies s[0 + 1 + i] == #[trigger] a[i] by {}
    lemma_group_at(s, a, 0);
    lemma_not_at_paren(s, 0, 0);
    assert forall|i: int| 0 <= i < b.len() implies s[(6 + la) + 1 + i] == #[trigger] b[i] by {
        assert(s[7 + la + i] == b[i]);
    }
    lemma_group_at(s, b, 6 + la);
    lemma_not_at_paren(s, 6 + la, 5 + la);
    lemma_operator(s, 2 + la, c);
}

/// A text whose first operand ends the text parses to that operand.
proof fn lemma_top_not(s: Seq<char>, e: SpecExpr)
    requires
        parse_not_spec(s, 0) == Ok::<(SpecExpr, int), SpecConditionError>((e, s.len() as int)),
    ensures
        parse_spec(s) == Ok::<SpecExpr, SpecConditionError>(e),
{
    lemma_at_end(s, e);
    assert(parse_and_spec(s, 0) == Ok::<(SpecExpr, int), SpecConditionError>((e, s.len() as int)));
}

/// `not (a)` parses to the negation of what `a` parses to.
pub proof fn lemma_parse_negated(a: Seq<char>)
    requires
        parse_spec(a) is Ok,
    ensures
        parse_spec(negated(a)) == Ok::<SpecExpr, SpecConditionError>(SpecExpr::Not(Box::new(parse_spec(a)->Ok_0))),
{
    let s = negated(a);
    let n = a.len() as int;
    assert(s[0] == 'n' && s[1] == 'o' && s[2] == 't' && s[3] == ' ' && s[4] == '(');
    assert(s[5 + n] == ')');
    assert forall|i: int| 0 <= i < a.len() implies s[4 + 1 + i] == #[trigger] a[i] by {}
    lemma_group_at(s, a, 4);
    lemma_not_word(s, 0);
    lemma_top_not(s, SpecExpr::Not(Box::new(parse_spec(a)->Ok_0)));
}

/// `(a)` parses to what `a` parses to.
pub proof fn lemma_parse_grouped(a: Seq<char>)
    requires
        parse_spec(a) is Ok,
    ensures
        parse_spec(grouped(a)) == parse_spec(a),
{
    let s = grouped(a);
    assert forall|i: int| 0 <= i < a.len() implies s[0 + 1 + i] == #[trigger] a[i] by {}
    assert(s[0] == '(');
    assert(s[1 + a.len() as int] == ')');
    lemma_group_at(s, a, 0);
    lemma_not_at_paren(s, 0, 0);
    lemma_top_not(s, parse_spec(a)->Ok_0);
}

proof fn lemma_conjoined_chars(a: Seq<char>, b: Seq<char>)
    ensures
        ({
            let s = conjoined(a, b);
            let la = a.len() as int;
            &&& s.len() == a.len() + b.len() + 8
            &&& s[0] == '('
            &&& forall|i: int| 0 <= i < a.len() ==> s[1 + i] == #[trigger] a[i]
            &&& s[1 + la] == ')'
            &&& s[2 + la] == ' ' && s[3 + la] == '&' && s[4 + la] == '&' && s[5 + la] == ' ' && s[6 + la] == '('
            &&& forall|i: int| 0 <= i < b.len() ==> s[7 + la + i] == #[trigger] b[i]
            &&& s[7 + la + b.len()] == ')'
        }),
{
}

proof fn lemma_disjoined_chars(a: Seq<char>, b: Seq<char>)
    ensures
        ({
            let s = disjoined(a, b);
            let la = a.len() as int;
            &&& s.len() == a.len() + b.len() + 8
            &&& s[0] == '('
            &&& forall|i: int| 0 <= i < a.len() ==> s[1 + i] == #[trigger] a[i]
            &&& s[1 + la] == ')'
            &&& s[2 + la] == ' ' && s[3 + la] == '|' && s[4 + la] == '|' && s[5 + la] == ' ' && s[6 + la] == '('
            &&& forall|i: int| 0 <= i < b.len() ==> s[7 + la + i] == #[trigger] b[i]
            &&& s[7 + la + b.len()] == ')'
        }),
{
}

/// `(a) && (b)` parses to the conjunction of what `a` and `b` parse to.
pub proof fn lemma_parse_conjoined(a: Seq<char>, b: Seq<char>)
    requires
        parse_spec(a) is Ok,
        parse_spec(b) is Ok,
    ensures
        parse_spec(conjoined(a, b)) == Ok::<SpecExpr, SpecConditionError>(
            SpecExpr::And(Box::new(parse_spec(a)->Ok_0), Box::new(parse_spec(b)->Ok_0)),
        ),
{
    let s = conjoined(a, b);
    let ea = parse_spec(a)->Ok_0;
    let eb = parse_spec(b)->Ok_0;
    let la = a.len() as int;
    lemma_conjoined_chars(a, b);
    lemma_two_groups(s, a, b, '&');
    let both = SpecExpr::And(Box::new(ea), Box::new(eb));
    lemma_at_end(s, both);
    assert(and_tail_spec(s, 2 + la, ea) == Ok::<(SpecExpr, int), SpecConditionError>((both, s.len() as int)));
    assert(parse_and_spec(s, 0) == Ok::<(SpecExpr, int), SpecConditionError>((both, s.len() as int)));
    assert(parse_or_spec(s, 0) == Ok::<(SpecExpr, int), SpecConditionError>((both, s.len() as int)));
}

/// `(a) || (b)` parses to the disjunction of what `a` and `b` parse to.
pub proof fn lemma_parse_disjoined(a: Seq<char>, b: Seq<char>)
    requires
        parse_spec(a) is Ok,
        parse_spec(b) is Ok,
    ensures
        parse_spec(disjoined(a, b)) == Ok::<SpecExpr, SpecConditionError>(
            SpecExpr::Or(Box::new(parse_spec(a)->Ok_0), Box::new(parse_spec(b)->Ok_0)),
        ),
{
    let s = disjoined(a, b);
    let ea = parse_spec(a)->Ok_0;
    let eb = parse_spec(b)->Ok_0;
    let la = a.len() as int;
    lemma_disjoined_chars(a, b);
    lemma_two_groups(s, a, b, '|');
    assert(and_tail_spec(s, 2 + la, ea) == Ok::<(SpecExpr, int), SpecConditionError>((ea, 3 + la)));
    assert(parse_and_spec(s, 0) == Ok::<(SpecExpr, int), SpecConditionError>((ea, 3 + la)));
    lemma_at_end(s, eb);
    assert(parse_and_spec(s, 5 + la) == Ok::<(SpecExpr, int), SpecConditionError>((eb, s.len() as int)));
    let either = SpecExpr::Or(Box::new(ea), Box::new(eb));
    lemma_at_end(s, either);
    assert(consume_spec(s, 3 + la, lit2('|', '|')) == (true, 5 + la));
    assert(or_tail_spec(s, 3 + la, ea) == Ok::<(SpecExpr, int), SpecConditionError>((either, s.len() as int)));
    assert(parse_or_spec(s, 0) == Ok::<(SpecExpr, int), SpecConditionError>((either, s.len() as int)));
}

/// Conditions compose as the documentation promises: for conditions `a` and `b` that evaluate
/// to `x` and `y`, `not (a)` evaluates to `!x`, `(a)` to `x`, `(a) && (b)` to `x && y`, and
/// `(a) || (b)` to `x || y`.
pub proof fn lemma_conditions_compose(
    a: Seq<char>,
    b: Seq<char>,
    ctx: SpecContext,
    facts: SpecFacts,
    x: bool,
    y: bool,
)
    requires
        evaluate_spec(a, ctx, facts) == Ok::<bool, SpecConditionError>(x),
        evaluate_spec(b, ctx, facts) == Ok::<bool, SpecConditionError>(y),
    ensures
        evaluate_spec(negated(a), ctx, facts) == Ok::<bool, SpecConditionError>(!x),
        evaluate_spec(grouped(a), ctx, facts) == Ok::<bool, SpecConditionError>(x),
        evaluate_spec(conjoined(a, b), ctx, facts) == Ok::<bool, SpecConditionError>(x && y),
        evaluate_spec(disjoined(a, b), ctx, facts) == Ok::<bool, SpecConditionError>(x || y),
{
    lemma_parse_negated(a);
    lemma_parse_grouped(a);
    lemma_parse_conjoined(a, b);
    lemma_parse_disjoined(a, b);
}

} // verus!

//! Step conditions: a small boolean language of helper calls, `not`, `&&`, `||` and
//! parentheses, parsed and evaluated here.
//!
//! Evaluation needs answers from the machine (the operating system, whether a file exists,
//! whether an environment variable is set).  They come in a [`ConditionFacts`] value, which the
//! caller fills in for the [`Probe`]s that [`condition_probes`] lists.
use vstd::prelude::*;
use crate::interpolate::{interpolate, interpolation, lookup, lookup_index, pairs_view, InterpolateError, SpecInterpolateError};
use crate::safety::{safe_path, safe_path_spec, PathError, SpecPathError};
use crate::text::{chars_eq, chars_of, is_alnum, occurs_at, occurs_at_exec, skip_while, slice_copy, string_of, char_is_alnum, char_is_ws, ws_pred};

verus! {

/// A parsed condition.
#[derive(Debug, PartialEq, Eq)]
pub enum Expr {
    Call { name: String, args: Vec<String> },
    Not(Box<Expr>),
    And(Box<Expr>, Box<Expr>),
    Or(Box<Expr>, Box<Expr>),
}

/// The mathematical form of a condition.
pub enum SpecExpr {
    Call { name: Seq<char>, args: Seq<Seq<char>> },
    Not(Box<SpecExpr>),
    And(Box<SpecExpr>, Box<SpecExpr>),
    Or(Box<SpecExpr>, Box<SpecExpr>),
}

pub open spec fn args_view(args: Seq<String>) -> Seq<Seq<char>> {
    args.map_values(|a: String| a@)
}

pub open spec fn expr_view(e: Expr) -> SpecExpr
    decreases e,
{
    match e {
        Expr::Call { name, args } => SpecExpr::Call { name: name@, args: args_view(args@) },
        Expr::Not(inner) => SpecExpr::Not(Box::new(expr_view(*inner))),
        Expr::And(l, r) => SpecExpr::And(Box::new(expr_view(*l)), Box::new(expr_view(*r))),
        Expr::Or(l, r) => SpecExpr::Or(Box::new(expr_view(*l)), Box::new(expr_view(*r))),
    }
}

impl View for Expr {
    type V = SpecExpr;

    open spec fn view(&self) -> SpecExpr {
        expr_view(*self)
    }
}

/// Why a condition could not be parsed, validated or evaluated.
#[derive(Debug, Clone, PartialEq, Eq)]
pub enum ConditionError {
    /// Text is left over after a complete condition.
    UnexpectedText(String),
    /// A `(` has no matching `)`.
    ExpectedClosingParen,
    /// The helper named here is not followed by `(`.
    ExpectedOpeningParen(String),
    /// An argument of the helper named here is not followed by `,` or `)`.
    ExpectedCommaOrClose(String),
    /// A helper name was expected.
    ExpectedFunction,
    /// A quoted string argument was expected.
    ExpectedQuotedString,
    /// A backslash ends the condition.
    UnterminatedEscape,
    /// A string argument has no closing quote.
    UnterminatedString,
    /// No helper has this name.
    UnknownFunction(String),
    /// The helper `name` takes `expected` arguments and got `got`.
    WrongArity { name: String, expected: usize, got: usize },
    /// A path argument could not be interpolated.
    Interpolate(InterpolateError),
    /// A path argument names a path outside the working directory.
    UnsafePath(PathError),
    /// The path was refused when its existing part was resolved; the text says why.
    PathRejected(String),
    /// The facts hold no answer for this path or variable.
    MissingFact(String),
}

pub enum SpecConditionError {
    UnexpectedText(Seq<char>),
    ExpectedClosingParen,
    ExpectedOpeningParen(Seq<char>),
    ExpectedCommaOrClose(Seq<char>),
    ExpectedFunction,
    ExpectedQuotedString,
    UnterminatedEscape,
    UnterminatedString,
    UnknownFunction(Seq<char>),
    WrongArity { name: Seq<char>, expected: nat, got: nat },
    Interpolate(SpecInterpolateError),
    UnsafePath(SpecPathError),
    PathRejected(Seq<char>),
    MissingFact(Seq<char>),
}

impl View for ConditionError {
    type V = SpecConditionError;

    open spec fn view(&self) -> SpecConditionError {
        match self {
            ConditionError::UnexpectedText(t) => SpecConditionError::UnexpectedText(t@),
            ConditionError::ExpectedClosingParen => SpecConditionError::ExpectedClosingParen,
            ConditionError::ExpectedOpeningParen(n) => SpecConditionError::ExpectedOpeningParen(n@),
            ConditionError::ExpectedCommaOrClose(n) => SpecConditionError::ExpectedCommaOrClose(n@),
            ConditionError::ExpectedFunction => SpecConditionError::ExpectedFunction,
            ConditionError::ExpectedQuotedString => SpecConditionError::ExpectedQuotedString,
            ConditionError::UnterminatedEscape => SpecConditionError::UnterminatedEscape,
            ConditionError::UnterminatedString => SpecConditionError::UnterminatedString,
            ConditionError::UnknownFunction(n) => SpecConditionError::UnknownFunction(n@),
            ConditionError::WrongArity { name, expected, got } => SpecConditionError::WrongArity {
                name: name@,
                expected: *expected as nat,
                got: *got as nat,
            },
            ConditionError::Interpolate(e) => SpecConditionError::Interpolate(e@),
            ConditionError::UnsafePath(e) => SpecConditionError::UnsafePath(e@),
            ConditionError::PathRejected(m) => SpecConditionError::PathRejected(m@),
            ConditionError::MissingFact(m) => SpecConditionError::MissingFact(m@),
        }
    }
}

/// The outcome of parsing from a position: the expression and the position after it.
pub type SpecParsed = Result<(SpecExpr, int), SpecConditionError>;

/// The outcome of parsing a string argument: its value and the position after it.
pub type SpecParsedString = Result<(Seq<char>, int), SpecConditionError>;

/// The position after the whitespace at `p`.
pub open spec fn ws_end(s: Seq<char>, p: int) -> int {
    skip_while(s, ws_pred(), p)
}

/// Skips whitespace, then takes `t` if it comes next: whether it did, and the new position.
pub open spec fn consume_spec(s: Seq<char>, p: int, t: Seq<char>) -> (bool, int) {
    let q = ws_end(s, p);
    if occurs_at(s, t, q) {
        (true, q + t.len())
    } else {
        (false, q)
    }
}

pub open spec fn is_ident_char(c: char) -> bool {
    is_alnum(c) || c == '_'
}

pub open spec fn ident_pred() -> spec_fn(char) -> bool {
    |c: char| is_ident_char(c)
}

/// Skips whitespace, then takes the keyword `kw` if it comes next and no identifier
/// character follows it.
pub open spec fn consume_keyword_spec(s: Seq<char>, p: int, kw: Seq<char>) -> (bool, int) {
    let q = ws_end(s, p);
    if !occurs_at(s, kw, q) {
        (false, q)
    } else {
        let e = q + kw.len();
        if e < s.len() && is_ident_char(s[e]) {
            (false, q)
        } else {
            (true, e)
        }
    }
}

/// A helper name: a nonempty run of ASCII letters, digits and `_` after whitespace.
pub open spec fn parse_identifier_spec(s: Seq<char>, p: int) -> SpecParsedString {
    let q = ws_end(s, p);
    let e = skip_while(s, ident_pred(), q);
    if e == q {
        Err(SpecConditionError::ExpectedFunction)
    } else {
        Ok((s.subrange(q, e), e))
    }
}

/// The rest of a string argument opened by `quote`: a backslash takes the next character
/// literally.
pub open spec fn string_body(s: Seq<char>, p: int, quote: char, acc: Seq<char>) -> SpecParsedString
    decreases s.len() - p,
{
    if p < 0 || p >= s.len() {
        Err(SpecConditionError::UnterminatedString)
    } else if s[p] == quote {
        Ok((acc, p + 1))
    } else if s[p] == '\\' {
        if p + 1 >= s.len() {
            Err(SpecConditionError::UnterminatedEscape)
        } else {
            string_body(s, p + 2, quote, acc.push(s[p + 1]))
        }
    } else {
        string_body(s, p + 1, quote, acc.push(s[p]))
    }
}

/// A string argument in single or double quotes, after whitespace.
pub open spec fn parse_string_spec(s: Seq<char>, p: int) -> SpecParsedString {
    let q = ws_end(s, p);
    if 0 <= q < s.len() && (s[q] == '"' || s[q] == '\'') {
        string_body(s, q + 1, s[q], Seq::empty())
    } else {
        Err(SpecConditionError::ExpectedQuotedString)
    }
}

pub open spec fn lit(c: char) -> Seq<char> {
    seq![c]
}

pub open spec fn lit2(a: char, b: char) -> Seq<char> {
    seq![a, b]
}

/// The arguments of a call after its `(`, the ones read so far being `args`.
pub open spec fn args_spec(s: Seq<char>, p: int, name: Seq<char>, args: Seq<Seq<char>>) -> SpecParsed
    decreases s.len() - p,
{
    let (closed, q) = consume_spec(s, p, lit(')'));
    if closed {
        Ok((SpecExpr::Call { name, args }, q))
    } else {
        match parse_string_spec(s, q) {
            Err(e) => Err(e),
            Ok((a, r)) => {
                let (closed2, q2) = consume_spec(s, r, lit(')'));
                if closed2 {
                    Ok((SpecExpr::Call { name, args: args.push(a) }, q2))
                } else {
                    let (comma, q3) = consume_spec(s, q2, lit(','));
                    if comma && q3 > p {
                        args_spec(s, q3, name, args.push(a))
                    } else {
                        Err(SpecConditionError::ExpectedCommaOrClose(name))
                    }
                }
            },
        }
    }
}

/// A helper call: a name, `(`, and quoted arguments separated by `,`, then `)`.
pub open spec fn parse_call_spec(s: Seq<char>, p: int) -> SpecParsed {
    match parse_identifier_spec(s, p) {
        Err(e) => Err(e),
        Ok((name, e)) => {
            let (open, q) = consume_spec(s, e, lit('('));
            if !open {
                Err(SpecConditionError::ExpectedOpeningParen(name))
            } else {
                args_spec(s, q, name, Seq::empty())
            }
        },
    }
}

/// `a || b || ...`, grouped to the left.
pub open spec fn parse_or_spec(s: Seq<char>, p: int) -> SpecParsed
    decreases s.len() - p, 5int,
{
    match parse_and_spec(s, p) {
        Err(e) => Err(e),
        Ok((l, q)) => if p <= q <= s.len() {
            or_tail_spec(s, q, l)
        } else {
            Err(SpecConditionError::ExpectedFunction)
        },
    }
}

pub open spec fn or_tail_spec(s: Seq<char>, p: int, acc: SpecExpr) -> SpecParsed
    decreases s.len() - p, 4int,
{
    let (found, q) = consume_spec(s, p, lit2('|', '|'));
    if !found {
        Ok((acc, q))
    } else if q > p {
        match parse_and_spec(s, q) {
            Err(e) => Err(e),
            Ok((r, q2)) => if q <= q2 <= s.len() {
                or_tail_spec(s, q2, SpecExpr::Or(Box::new(acc), Box::new(r)))
            } else {
                Err(SpecConditionError::ExpectedFunction)
            },
        }
    } else {
        Err(SpecConditionError::ExpectedFunction)
    }
}

/// `a && b && ...`, grouped to the left.
pub open spec fn parse_and_spec(s: Seq<char>, p: int) -> SpecParsed
    decreases s.len() - p, 3int,
{
    match parse_not_spec(s, p) {
        Err(e) => Err(e),
        Ok((l, q)) => if p <= q <= s.len() {
            and_tail_spec(s, q, l)
        } else {
            Err(SpecConditionError::ExpectedFunction)
        },
    }
}

pub open spec fn and_tail_spec(s: Seq<char>, p: int, acc: SpecExpr) -> SpecParsed
    decreases s.len() - p, 2int,
{
    let (found, q) = consume_spec(s, p, lit2('&', '&'));
    if !found {
        Ok((acc, q))
    } else if q > p {
        match parse_not_spec(s, q) {
            Err(e) => Err(e),
            Ok((r, q2)) => if q <= q2 <= s.len() {
                and_tail_spec(s, q2, SpecExpr::And(Box::new(acc), Box::new(r)))
            } else {
                Err(SpecConditionError::ExpectedFunction)
            },
        }
    } else {
        Err(SpecConditionError::ExpectedFunction)
    }
}

pub open spec fn not_keyword() -> Seq<char> {
    seq!['n', 'o', 't']
}

/// `not` before an operand, any number of times.
pub open spec fn parse_not_spec(s: Seq<char>, p: int) -> SpecParsed
    decreases s.len() - p, 1int,
{
    let (found, q) = consume_keyword_spec(s, p, not_keyword());
    if found {
        if q > p {
            match parse_not_spec(s, q) {
                Err(e) => Err(e),
                Ok((inner, r)) => Ok((SpecExpr::Not(Box::new(inner)), r)),
            }
        } else {
            Err(SpecConditionError::ExpectedFunction)
        }
    } else if p <= q <= s.len() {
        parse_primary_spec(s, q)
    } else {
        Err(SpecConditionError::ExpectedFunction)
    }
}

/// A parenthesised condition or a helper call.
pub open spec fn parse_primary_spec(s: Seq<char>, p: int) -> SpecParsed
    decreases s.len() - p, 0int,
{
    let (open, q) = consume_spec(s, p, lit('('));
    if open {
        if q > p {
            match parse_or_spec(s, q) {
                Err(e) => Err(e),
                Ok((e, r)) => {
                    let (closed, r2) = consume_spec(s, r, lit(')'));
                    if !closed {
                        Err(SpecConditionError::ExpectedClosingParen)
                    } else {
                        Ok((e, r2))
                    }
                },
            }
        } else {
            Err(SpecConditionError::ExpectedFunction)
        }
    } else {
        parse_call_spec(s, q)
    }
}

/// What parsing a whole condition gives: one `||`-expression, then only whitespace.
pub open spec fn parse_spec(s: Seq<char>) -> Result<SpecExpr, SpecConditionError> {
    match parse_or_spec(s, 0) {
        Err(e) => Err(e),
        Ok((e, q)) => {
            let r = ws_end(s, q);
            if 0 <= r < s.len() {
                Err(SpecConditionError::UnexpectedText(s.skip(r)))
            } else {
                Ok(e)
            }
        },
    }
}


fn lit_exec(c: char) -> (r: Vec<char>)
    ensures
        r@ == lit(c),
{
    let mut r: Vec<char> = Vec::new();
    r.push(c);
    proof {
        assert(r@ =~= lit(c));
    }
    r
}

fn lit2_exec(a: char, b: char) -> (r: Vec<char>)
    ensures
        r@ == lit2(a, b),
{
    let mut r: Vec<char> = Vec::new();
    r.push(a);
    r.push(b);
    proof {
        assert(r@ =~= lit2(a, b));
    }
    r
}

fn not_keyword_exec() -> (r: Vec<char>)
    ensures
        r@ == not_keyword(),
{
    let mut r: Vec<char> = Vec::new();
    r.push('n');
    r.push('o');
    r.push('t');
    proof {
        assert(r@ =~= not_keyword());
    }
    r
}

/// A recursive-descent parser over the characters of a condition.  Positions are character
/// indices into `input`.
pub struct Parser {
    pub input: Vec<char>,
}

/// The result of parsing from a position, the expression and the position after it, matches
/// `spec` and moves forward from `pos`.
pub open spec fn parsed_as(
    r: Result<(Expr, usize), ConditionError>,
    spec: SpecParsed,
    pos: int,
    len: int,
) -> bool {
    match r {
        Ok((e, q)) => spec == Ok::<(SpecExpr, int), SpecConditionError>((e@, q as int)) && pos
            <= q <= len,
        Err(err) => spec == Err::<(SpecExpr, int), SpecConditionError>(err@),
    }
}

impl Parser {
    pub fn new(input: &str) -> (r: Parser)
        ensures
            r.input@ == input@,
    {
        Parser { input: chars_of(input) }
    }

    /// The character at `pos`, if any.
    pub fn peek_char(&self, pos: usize) -> (r: Option<char>)
        ensures
            pos < self.input@.len() ==> r == Some(self.input@[pos as int]),
            pos >= self.input@.len() ==> r is None,
    {
        if pos < self.input.len() {
            Some(self.input[pos])
        } else {
            None
        }
    }

    /// Whether `pos` is at the end of the input.
    pub fn is_eof(&self, pos: usize) -> (r: bool)
        ensures
            r == (pos >= self.input@.len()),
    {
        pos >= self.input.len()
    }

    /// The input from `pos` on.
    pub fn remaining(&self, pos: usize) -> (r: String)
        requires
            pos <= self.input@.len(),
        ensures
            r@ == self.input@.skip(pos as int),
    {
        string_of(&slice_copy(&self.input, pos, self.input.len()))
    }

    /// The position after the whitespace at `pos`.
    pub fn skip_ws(&self, pos: usize) -> (r: usize)
        requires
            pos <= self.input@.len(),
        ensures
            r == ws_end(self.input@, pos as int),
            pos <= r <= self.input@.len(),
    {
        let mut p = pos;
        while p < self.input.len() && char_is_ws(self.input[p])
            invariant
                pos <= p <= self.input@.len(),
                ws_end(self.input@, pos as int) == ws_end(self.input@, p as int),
            decreases self.input@.len() - p,
        {
            p = p + 1;
        }
        p
    }

    /// Skips whitespace, then takes `text` if it comes next.
    pub fn consume(&self, pos: usize, text: &[char]) -> (r: (bool, usize))
        requires
            pos <= self.input@.len(),
        ensures
            r.0 == consume_spec(self.input@, pos as int, text@).0,
            r.1 == consume_spec(self.input@, pos as int, text@).1,
            pos <= r.1 <= self.input@.len(),
            r.0 ==> pos + text@.len() <= r.1,
    {
        let q = self.skip_ws(pos);
        if occurs_at_exec(&self.input, text, q) {
            assert(q + text.len() <= self.input.len());
            (true, q + text.len())
        } else {
            (false, q)
        }
    }

    /// Skips whitespace, then takes the keyword `kw` if it comes next as a whole word.
    pub fn consume_keyword(&self, pos: usize, kw: &[char]) -> (r: (bool, usize))
        requires
            pos <= self.input@.len(),
        ensures
            r.0 == consume_keyword_spec(self.input@, pos as int, kw@).0,
            r.1 == consume_keyword_spec(self.input@, pos as int, kw@).1,
            pos <= r.1 <= self.input@.len(),
            r.0 ==> pos + kw@.len() <= r.1,
    {
        let q = self.skip_ws(pos);
        if !occurs_at_exec(&self.input, kw, q) {
            return (false, q);
        }
        assert(q + kw.len() <= self.input.len());
        assert(q + kw.len() <= self.input.len());
        let e = q + kw.len();
        if e < self.input.len() && (char_is_alnum(self.input[e]) || self.input[e] == '_') {
            (false, q)
        } else {
            (true, e)
        }
    }

    /// A helper name.
    pub fn parse_identifier(&self, pos: usize) -> (r: Result<(String, usize), ConditionError>)
        requires
            pos <= self.input@.len(),
        ensures
            match r {
                Ok((n, e)) => parse_identifier_spec(self.input@, pos as int) == Ok::<
                    (Seq<char>, int),
                    SpecConditionError,
                >((n@, e as int)) && pos < e <= self.input@.len(),
                Err(err) => parse_identifier_spec(self.input@, pos as int) == Err::<
                    (Seq<char>, int),
                    SpecConditionError,
                >(err@),
            },
    {
        let start = self.skip_ws(pos);
        let mut p = start;
        while p < self.input.len() && (char_is_alnum(self.input[p]) || self.input[p] == '_')
            invariant
                start <= p <= self.input@.len(),
                skip_while(self.input@, ident_pred(), start as int) == skip_while(
                    self.input@,
                    ident_pred(),
                    p as int,
                ),
            decreases self.input@.len() - p,
        {
            p = p + 1;
        }
        if p == start {
            return Err(ConditionError::ExpectedFunction);
        }
        Ok((string_of(&slice_copy(&self.input, start, p)), p))
    }

    /// A quoted string argument.
    pub fn parse_string(&self, pos: usize) -> (r: Result<(String, usize), ConditionError>)
        requires
            pos <= self.input@.len(),
        ensures
            match r {
                Ok((a, e)) => parse_string_spec(self.input@, pos as int) == Ok::<
                    (Seq<char>, int),
                    SpecConditionError,
                >((a@, e as int)) && pos < e <= self.input@.len(),
                Err(err) => parse_string_spec(self.input@, pos as int) == Err::<
                    (Seq<char>, int),
                    SpecConditionError,
                >(err@),
            },
    {
        let q = self.skip_ws(pos);
        let quote = match self.peek_char(q) {
            Some(c) => if c == '"' || c == '\'' {
                c
            } else {
                return Err(ConditionError::ExpectedQuotedString);
            },
            None => {
                return Err(ConditionError::ExpectedQuotedString);
            },
        };
        assert(q < self.input.len());
        let mut p = q + 1;
        let mut out: Vec<char> = Vec::new();
        loop
            invariant
                pos <= q < p <= self.input@.len(),
                quote == self.input@[q as int],
                parse_string_spec(self.input@, pos as int) == string_body(
                    self.input@,
                    p as int,
                    quote,
                    out@,
                ),
            decreases self.input@.len() - p,
        {
            if p >= self.input.len() {
                return Err(ConditionError::UnterminatedString);
            }
            let ch = self.input[p];
            if ch == quote {
                let a = string_of(&out);
                assert(string_body(self.input@, p as int, quote, out@) == Ok::<
                    (Seq<char>, int),
                    SpecConditionError,
                >((out@, p + 1)));
                assert(a@ == out@);
                return Ok((a, p + 1));
            }
            if ch == '\\' {
                if p + 1 >= self.input.len() {
                    return Err(ConditionError::UnterminatedEscape);
                }
                out.push(self.input[p + 1]);
                p = p + 2;
            } else {
                out.push(ch);
                p = p + 1;
            }
        }
    }

    /// A helper call and its arguments.
    pub fn parse_call(&self, pos: usize) -> (r: Result<(Expr, usize), ConditionError>)
        requires
            pos <= self.input@.len(),
        ensures
            parsed_as(r, parse_call_spec(self.input@, pos as int), pos as int, self.input@.len() as int),
    {
        let (name, e) = match self.parse_identifier(pos) {
            Err(err) => {
                return Err(err);
            },
            Ok(x) => x,
        };
        let open = lit_exec('(');
        let close = lit_exec(')');
        let comma = lit_exec(',');
        let (opened, q0) = self.consume(e, &open);
        if !opened {
            return Err(ConditionError::ExpectedOpeningParen(name));
        }
        let mut args: Vec<String> = Vec::new();
        let mut q = q0;
        proof {
            assert(args_view(args@) =~= Seq::<Seq<char>>::empty());
        }
        loop
            invariant
                pos <= q <= self.input@.len(),
                open@ == lit('('),
                close@ == lit(')'),
                comma@ == lit(','),
                parse_call_spec(self.input@, pos as int) == args_spec(
                    self.input@,
                    q as int,
                    name@,
                    args_view(args@),
                ),
            decreases self.input@.len() - q,
        {
            let (closed, q1) = self.consume(q, &close);
            if closed {
                return Ok((Expr::Call { name, args }, q1));
            }
            let (a, r) = match self.parse_string(q1) {
                Err(err) => {
                    return Err(err);
                },
                Ok(x) => x,
            };
            let ghost av = a@;
            let ghost before = args@;
            let (closed2, q2) = self.consume(r, &close);
            args.push(a);
            proof {
                assert(args_view(args@) =~= args_view(before).push(av));
            }
            if closed2 {
                return Ok((Expr::Call { name, args }, q2));
            }
            let (has_comma, q3) = self.consume(q2, &comma);
            if !has_comma {
                return Err(ConditionError::ExpectedCommaOrClose(name));
            }
            q = q3;
        }
    }

    /// `a || b || ...`.
    pub fn parse_or(&self, pos: usize) -> (r: Result<(Expr, usize), ConditionError>)
        requires
            pos <= self.input@.len(),
        ensures
            parsed_as(r, parse_or_spec(self.input@, pos as int), pos as int, self.input@.len() as int),
        decreases self.input@.len() - pos, 5int,
    {
        let (mut expr, mut q) = match self.parse_and(pos) {
            Err(err) => {
                return Err(err);
            },
            Ok(x) => x,
        };
        let bar2 = lit2_exec('|', '|');
        loop
            invariant
                pos <= q <= self.input@.len(),
                bar2@ == lit2('|', '|'),
                parse_or_spec(self.input@, pos as int) == or_tail_spec(self.input@, q as int, expr@),
            decreases self.input@.len() - q,
        {
            let (found, q1) = self.consume(q, &bar2);
            if !found {
                return Ok((expr, q1));
            }
            let (right, q2) = match self.parse_and(q1) {
                Err(err) => {
                    return Err(err);
                },
                Ok(x) => x,
            };
            expr = Expr::Or(Box::new(expr), Box::new(right));
            q = q2;
        }
    }

    /// `a && b && ...`.
    pub fn parse_and(&self, pos: usize) -> (r: Result<(Expr, usize), ConditionError>)
        requires
            pos <= self.input@.len(),
        ensures
            parsed_as(r, parse_and_spec(self.input@, pos as int), pos as int, self.input@.len() as int),
        decreases self.input@.len() - pos, 3int,
    {
        let (mut expr, mut q) = match self.parse_not(pos) {
            Err(err) => {
                return Err(err);
            },
            Ok(x) => x,
        };
        let amp2 = lit2_exec('&', '&');
        loop
            invariant
                pos <= q <= self.input@.len(),
                amp2@ == lit2('&', '&'),
                parse_and_spec(self.input@, pos as int) == and_tail_spec(self.input@, q as int, expr@),
            decreases self.input@.len() - q,
        {
            let (found, q1) = self.consume(q, &amp2);
            if !found {
                return Ok((expr, q1));
            }
            let (right, q2) = match self.parse_not(q1) {
                Err(err) => {
                    return Err(err);
                },
                Ok(x) => x,
            };
            expr = Expr::And(Box::new(expr), Box::new(right));
            q = q2;
        }
    }

    /// `not` before an operand.
    pub fn parse_not(&self, pos: usize) -> (r: Result<(Expr, usize), ConditionError>)
        requires
            pos <= self.input@.len(),
        ensures
            parsed_as(r, parse_not_spec(self.input@, pos as int), pos as int, self.input@.len() as int),
        decreases self.input@.len() - pos, 1int,
    {
        let kw = not_keyword_exec();
        let (found, q) = self.consume_keyword(pos, &kw);
        if found {
            match self.parse_not(q) {
                Err(err) => Err(err),
                Ok((inner, r)) => Ok((Expr::Not(Box::new(inner)), r)),
            }
        } else {
            self.parse_primary(q)
        }
    }

    /// A parenthesised condition or a helper call.
    pub fn parse_primary(&self, pos: usize) -> (r: Result<(Expr, usize), ConditionError>)
        requires
            pos <= self.input@.len(),
        ensures
            parsed_as(r, parse_primary_spec(self.input@, pos as int), pos as int, self.input@.len() as int),
        decreases self.input@.len() - pos, 0int,
    {
        let open = lit_exec('(');
        let (opened, q) = self.consume(pos, &open);
        if opened {
            let (e, r) = match self.parse_or(q) {
                Err(err) => {
                    return Err(err);
                },
                Ok(x) => x,
            };
            let close = lit_exec(')');
            let (closed, r2) = self.consume(r, &close);
            if !closed {
                return Err(ConditionError::ExpectedClosingParen);
            }
            Ok((e, r2))
        } else {
            self.parse_call(q)
        }
    }
}

/// Parses a whole condition.
pub fn parse(input: &str) -> (r: Result<Expr, ConditionError>)
    ensures
        match r {
            Ok(e) => parse_spec(input@) == Ok::<SpecExpr, SpecConditionError>(e@),
            Err(err) => parse_spec(input@) == Err::<SpecExpr, SpecConditionError>(err@),
        },
{
    let parser = Parser::new(input);
    let (expr, q) = match parser.parse_or(0) {
        Err(err) => {
            return Err(err);
        },
        Ok(x) => x,
    };
    let r = parser.skip_ws(q);
    if !parser.is_eof(r) {
        return Err(ConditionError::UnexpectedText(parser.remaining(r)));
    }
    Ok(expr)
}


/// The number of arguments each helper takes; `None` for an unknown name.
pub open spec fn arity_of(name: Seq<char>) -> Option<nat> {
    if name == "os_is"@ || name == "file_exists"@ || name == "dir_exists"@ || name
        == "env_exists"@ || name == "input_exists"@ {
        Some(1)
    } else if name == "input_equals"@ {
        Some(2)
    } else {
        None
    }
}

/// The arity check of a call.
pub open spec fn arity_check(name: Seq<char>, args: Seq<Seq<char>>, expected: nat) -> Result<
    (),
    SpecConditionError,
> {
    if args.len() != expected {
        Err(SpecConditionError::WrongArity { name, expected, got: args.len() })
    } else {
        Ok(())
    }
}

/// A call is valid when its helper exists and gets its number of arguments.
pub open spec fn validate_call_spec(name: Seq<char>, args: Seq<Seq<char>>) -> Result<
    (),
    SpecConditionError,
> {
    match arity_of(name) {
        None => Err(SpecConditionError::UnknownFunction(name)),
        Some(n) => arity_check(name, args, n),
    }
}

/// Every call in `e` is valid; the first invalid one, left to right, is the error.
pub open spec fn validate_expr_spec(e: SpecExpr) -> Result<(), SpecConditionError>
    decreases e,
{
    match e {
        SpecExpr::Not(inner) => validate_expr_spec(*inner),
        SpecExpr::And(l, r) => match validate_expr_spec(*l) {
            Err(err) => Err(err),
            Ok(()) => validate_expr_spec(*r),
        },
        SpecExpr::Or(l, r) => match validate_expr_spec(*l) {
            Err(err) => Err(err),
            Ok(()) => validate_expr_spec(*r),
        },
        SpecExpr::Call { name, args } => validate_call_spec(name, args),
    }
}

/// What `validate_syntax` decides.
pub open spec fn validate_syntax_spec(s: Seq<char>) -> Result<(), SpecConditionError> {
    match parse_spec(s) {
        Err(err) => Err(err),
        Ok(e) => validate_expr_spec(e),
    }
}

/// Whether `name` is the helper `lit`.
pub fn name_is(name: &[char], lit: &str) -> (r: bool)
    ensures
        r == (name@ == lit@),
{
    let l = chars_of(lit);
    chars_eq(name, &l)
}

/// The number of arguments the helper takes, if it exists.
pub fn arity(name: &[char]) -> (r: Option<usize>)
    ensures
        r matches Some(n) ==> arity_of(name@) == Some(n as nat),
        r is None ==> arity_of(name@) is None,
{
    if name_is(name, "os_is") || name_is(name, "file_exists") || name_is(name, "dir_exists")
        || name_is(name, "env_exists") || name_is(name, "input_exists") {
        Some(1)
    } else if name_is(name, "input_equals") {
        Some(2)
    } else {
        None
    }
}

/// Fails unless `args` has `expected` elements.
pub fn expect_arity(name: &String, args: &Vec<String>, expected: usize) -> (r: Result<
    (),
    ConditionError,
>)
    ensures
        match r {
            Ok(()) => arity_check(name@, args_view(args@), expected as nat) == Ok::<
                (),
                SpecConditionError,
            >(()),
            Err(err) => arity_check(name@, args_view(args@), expected as nat) == Err::<
                (),
                SpecConditionError,
            >(err@),
        },
{
    if args.len() != expected {
        return Err(
            ConditionError::WrongArity { name: name.clone(), expected, got: args.len() },
        );
    }
    Ok(())
}

/// Checks one call.
pub fn validate_call(name: &String, args: &Vec<String>) -> (r: Result<(), ConditionError>)
    ensures
        match r {
            Ok(()) => validate_call_spec(name@, args_view(args@)) == Ok::<(), SpecConditionError>(
                (),
            ),
            Err(err) => validate_call_spec(name@, args_view(args@)) == Err::<
                (),
                SpecConditionError,
            >(err@),
        },
{
    let n = chars_of(name.as_str());
    match arity(&n) {
        None => Err(ConditionError::UnknownFunction(name.clone())),
        Some(k) => expect_arity(name, args, k),
    }
}

/// Checks every call of an expression.
pub fn validate_expr(e: &Expr) -> (r: Result<(), ConditionError>)
    ensures
        match r {
            Ok(()) => validate_expr_spec(e@) == Ok::<(), SpecConditionError>(()),
            Err(err) => validate_expr_spec(e@) == Err::<(), SpecConditionError>(err@),
        },
    decreases e,
{
    match e {
        Expr::Not(inner) => validate_expr(inner),
        Expr::And(l, r) => {
            validate_expr(l)?;
            validate_expr(r)
        },
        Expr::Or(l, r) => {
            validate_expr(l)?;
            validate_expr(r)
        },
        Expr::Call { name, args } => validate_call(name, args),
    }
}

/// Checks that a condition parses and that each helper exists with its number of arguments.
pub fn validate_syntax(condition: &str) -> (r: Result<(), ConditionError>)
    ensures
        match r {
            Ok(()) => validate_syntax_spec(condition@) == Ok::<(), SpecConditionError>(()),
            Err(err) => validate_syntax_spec(condition@) == Err::<(), SpecConditionError>(err@),
        },
{
    let expr = parse(condition)?;
    validate_expr(&expr)
}


/// Where a condition is evaluated: the project root that paths are relative to, the input
/// values, and whether the manifest allows paths outside the working directory.
pub struct ConditionContext {
    pub project_root: String,
    pub values: Vec<(String, String)>,
    pub allow_outside_cwd: bool,
    /// Whether paths follow the rules of Windows.
    pub windows: bool,
}

pub struct SpecContext {
    pub project_root: Seq<char>,
    pub values: Seq<(Seq<char>, Seq<char>)>,
    pub allow_outside_cwd: bool,
    pub windows: bool,
}

impl View for ConditionContext {
    type V = SpecContext;

    open spec fn view(&self) -> SpecContext {
        SpecContext {
            project_root: self.project_root@,
            values: pairs_view(self.values@),
            allow_outside_cwd: self.allow_outside_cwd,
            windows: self.windows,
        }
    }
}

/// What the machine says of a path that a condition names.
#[derive(Debug, Clone, PartialEq, Eq)]
pub enum PathFact {
    /// The path resolves inside the project; whether it is a file, and whether a directory.
    Inside { is_file: bool, is_dir: bool },
    /// Resolving the existing part of the path left the project or failed; the text says why.
    Rejected(String),
}

pub enum SpecPathFact {
    Inside { is_file: bool, is_dir: bool },
    Rejected(Seq<char>),
}

impl View for PathFact {
    type V = SpecPathFact;

    open spec fn view(&self) -> SpecPathFact {
        match self {
            PathFact::Inside { is_file, is_dir } => SpecPathFact::Inside {
                is_file: *is_file,
                is_dir: *is_dir,
            },
            PathFact::Rejected(m) => SpecPathFact::Rejected(m@),
        }
    }
}

/// The answers from the machine that evaluation uses: the operating system's name, what each
/// probed path is, and whether each probed environment variable is set.
pub struct ConditionFacts {
    pub os: String,
    pub paths: Vec<(String, PathFact)>,
    pub env_vars: Vec<(String, bool)>,
}

pub struct SpecFacts {
    pub os: Seq<char>,
    pub paths: Seq<(Seq<char>, SpecPathFact)>,
    pub env_vars: Seq<(Seq<char>, bool)>,
}

impl View for ConditionFacts {
    type V = SpecFacts;

    open spec fn view(&self) -> SpecFacts {
        SpecFacts {
            os: self.os@,
            paths: self.paths@.map_values(|p: (String, PathFact)| (p.0@, p.1@)),
            env_vars: self.env_vars@.map_values(|p: (String, bool)| (p.0@, p.1)),
        }
    }
}

/// The answer stored for `key`: that of the first entry with this key.
pub open spec fn find_fact<V>(entries: Seq<(Seq<char>, V)>, key: Seq<char>) -> Option<V>
    decreases entries.len(),
{
    if entries.len() == 0 {
        None
    } else if entries[0].0 == key {
        Some(entries[0].1)
    } else {
        find_fact(entries.drop_first(), key)
    }
}

/// A question for the machine that a condition may ask.
#[derive(Debug, Clone, PartialEq, Eq)]
pub enum Probe {
    /// What the path is (already joined to the project root).
    Path(String),
    /// Whether the environment variable is set.
    Env(String),
}

pub enum SpecProbe {
    Path(Seq<char>),
    Env(Seq<char>),
}

impl View for Probe {
    type V = SpecProbe;

    open spec fn view(&self) -> SpecProbe {
        match self {
            Probe::Path(p) => SpecProbe::Path(p@),
            Probe::Env(n) => SpecProbe::Env(n@),
        }
    }
}

/// The path that a `file_exists` or `dir_exists` argument names: interpolated, then checked
/// and joined to the project root.
pub open spec fn condition_path_spec(raw: Seq<char>, ctx: SpecContext) -> Result<
    Seq<char>,
    SpecConditionError,
> {
    match interpolation(raw, ctx.values) {
        Err(e) => Err(SpecConditionError::Interpolate(e)),
        Ok(p) => match safe_path_spec(ctx.project_root, p, ctx.allow_outside_cwd, ctx.windows) {
            Err(e) => Err(SpecConditionError::UnsafePath(e)),
            Ok(q) => Ok(q),
        },
    }
}

/// What a path helper answers, given whether it asks for a file.
pub open spec fn path_helper_spec(
    raw: Seq<char>,
    want_file: bool,
    ctx: SpecContext,
    facts: SpecFacts,
) -> Result<bool, SpecConditionError> {
    match condition_path_spec(raw, ctx) {
        Err(e) => Err(e),
        Ok(p) => match find_fact(facts.paths, p) {
            None => Err(SpecConditionError::MissingFact(p)),
            Some(SpecPathFact::Rejected(m)) => Err(SpecConditionError::PathRejected(m)),
            Some(SpecPathFact::Inside { is_file, is_dir }) => Ok(
                if want_file {
                    is_file
                } else {
                    is_dir
                },
            ),
        },
    }
}

/// The value of one helper call.
pub open spec fn eval_call_spec(
    name: Seq<char>,
    args: Seq<Seq<char>>,
    ctx: SpecContext,
    facts: SpecFacts,
) -> Result<bool, SpecConditionError> {
    match arity_of(name) {
        None => Err(SpecConditionError::UnknownFunction(name)),
        Some(n) => match arity_check(name, args, n) {
            Err(e) => Err(e),
            Ok(()) => if name == "os_is"@ {
                Ok(facts.os == args[0])
            } else if name == "file_exists"@ {
                path_helper_spec(args[0], true, ctx, facts)
            } else if name == "dir_exists"@ {
                path_helper_spec(args[0], false, ctx, facts)
            } else if name == "env_exists"@ {
                match find_fact(facts.env_vars, args[0]) {
                    None => Err(SpecConditionError::MissingFact(args[0])),
                    Some(b) => Ok(b),
                }
            } else if name == "input_exists"@ {
                match lookup(ctx.values, args[0]) {
                    Some(v) => Ok(v.len() > 0),
                    None => Ok(false),
                }
            } else {
                Ok(lookup(ctx.values, args[0]) == Some(args[1]))
            },
        },
    }
}

/// The value of an expression: `&&` and `||` look at their right side only when the left
/// one does not decide.
pub open spec fn eval_spec(e: SpecExpr, ctx: SpecContext, facts: SpecFacts) -> Result<
    bool,
    SpecConditionError,
>
    decreases e,
{
    match e {
        SpecExpr::Not(inner) => match eval_spec(*inner, ctx, facts) {
            Err(err) => Err(err),
            Ok(b) => Ok(!b),
        },
        SpecExpr::And(l, r) => match eval_spec(*l, ctx, facts) {
            Err(err) => Err(err),
            Ok(false) => Ok(false),
            Ok(true) => eval_spec(*r, ctx, facts),
        },
        SpecExpr::Or(l, r) => match eval_spec(*l, ctx, facts) {
            Err(err) => Err(err),
            Ok(true) => Ok(true),
            Ok(false) => eval_spec(*r, ctx, facts),
        },
        SpecExpr::Call { name, args } => eval_call_spec(name, args, ctx, facts),
    }
}

/// What `evaluate` decides.
pub open spec fn evaluate_spec(s: Seq<char>, ctx: SpecContext, facts: SpecFacts) -> Result<
    bool,
    SpecConditionError,
> {
    match parse_spec(s) {
        Err(err) => Err(err),
        Ok(e) => eval_spec(e, ctx, facts),
    }
}

/// The questions that evaluating `e` may ask: the path of each path helper whose argument
/// resolves, and the name of each `env_exists`, left to right.
pub open spec fn probes_of(e: SpecExpr, ctx: SpecContext) -> Seq<SpecProbe>
    decreases e,
{
    match e {
        SpecExpr::Not(inner) => probes_of(*inner, ctx),
        SpecExpr::And(l, r) => probes_of(*l, ctx) + probes_of(*r, ctx),
        SpecExpr::Or(l, r) => probes_of(*l, ctx) + probes_of(*r, ctx),
        SpecExpr::Call { name, args } => if args.len() == 1 && (name == "file_exists"@ || name
            == "dir_exists"@) {
            match condition_path_spec(args[0], ctx) {
                Ok(p) => seq![SpecProbe::Path(p)],
                Err(_) => Seq::empty(),
            }
        } else if args.len() == 1 && name == "env_exists"@ {
            seq![SpecProbe::Env(args[0])]
        } else {
            Seq::empty()
        },
    }
}

/// `facts` answers every probe in `probes`.
pub open spec fn answers_all(facts: SpecFacts, probes: Seq<SpecProbe>) -> bool {
    forall|i: int|
        0 <= i < probes.len() ==> match #[trigger] probes[i] {
            SpecProbe::Path(p) => find_fact(facts.paths, p) is Some,
            SpecProbe::Env(n) => find_fact(facts.env_vars, n) is Some,
        }
}

/// The fact stored for a path.
fn find_path_fact(facts: &ConditionFacts, key: &[char]) -> (r: Option<usize>)
    ensures
        r is None ==> find_fact(facts@.paths, key@) is None,
        r matches Some(i) ==> i < facts.paths@.len() && find_fact(facts@.paths, key@) == Some(
            facts.paths@[i as int].1@,
        ),
{
    let ghost all = facts@.paths;
    let mut i: usize = 0;
    proof {
        assert(all.skip(0) =~= all);
    }
    while i < facts.paths.len()
        invariant
            0 <= i <= facts.paths@.len(),
            all == facts@.paths,
            find_fact(all, key@) == find_fact(all.skip(i as int), key@),
        decreases facts.paths@.len() - i,
    {
        let k = chars_of(facts.paths[i].0.as_str());
        proof {
            assert(all.skip(i as int)[0] == all[i as int]);
        }
        if chars_eq(&k, key) {
            return Some(i);
        }
        proof {
            assert(all.skip(i as int).drop_first() =~= all.skip(i + 1));
        }
        i = i + 1;
    }
    None
}

/// The fact stored for an environment variable.
fn find_env_fact(facts: &ConditionFacts, key: &[char]) -> (r: Option<bool>)
    ensures
        r == find_fact(facts@.env_vars, key@),
{
    let ghost all = facts@.env_vars;
    let mut i: usize = 0;
    proof {
        assert(all.skip(0) =~= all);
    }
    while i < facts.env_vars.len()
        invariant
            0 <= i <= facts.env_vars@.len(),
            all == facts@.env_vars,
            find_fact(all, key@) == find_fact(all.skip(i as int), key@),
        decreases facts.env_vars@.len() - i,
    {
        let k = chars_of(facts.env_vars[i].0.as_str());
        proof {
            assert(all.skip(i as int)[0] == all[i as int]);
        }
        if chars_eq(&k, key) {
            return Some(facts.env_vars[i].1);
        }
        proof {
            assert(all.skip(i as int).drop_first() =~= all.skip(i + 1));
        }
        i = i + 1;
    }
    None
}

/// The path that a path helper's argument names.
pub fn condition_path(raw: &String, context: &ConditionContext) -> (r: Result<String, ConditionError>)
    ensures
        match r {
            Ok(p) => condition_path_spec(raw@, context@) == Ok::<Seq<char>, SpecConditionError>(
                p@,
            ),
            Err(err) => condition_path_spec(raw@, context@) == Err::<
                Seq<char>,
                SpecConditionError,
            >(err@),
        },
{
    let interpolated = match interpolate(raw.as_str(), &context.values) {
        Err(e) => {
            return Err(ConditionError::Interpolate(e));
        },
        Ok(p) => p,
    };
    match safe_path(context.project_root.as_str(), interpolated.as_str(), context.allow_outside_cwd, context.windows) {
        Err(e) => Err(ConditionError::UnsafePath(e)),
        Ok(q) => Ok(q),
    }
}

fn path_helper(raw: &String, want_file: bool, context: &ConditionContext, facts: &ConditionFacts) -> (r:
    Result<bool, ConditionError>)
    ensures
        match r {
            Ok(b) => path_helper_spec(raw@, want_file, context@, facts@) == Ok::<
                bool,
                SpecConditionError,
            >(b),
            Err(err) => path_helper_spec(raw@, want_file, context@, facts@) == Err::<
                bool,
                SpecConditionError,
            >(err@),
        },
{
    let path = condition_path(raw, context)?;
    let key = chars_of(path.as_str());
    match find_path_fact(facts, &key) {
        None => Err(ConditionError::MissingFact(path)),
        Some(i) => match &facts.paths[i].1 {
            PathFact::Rejected(m) => Err(ConditionError::PathRejected(m.clone())),
            PathFact::Inside { is_file, is_dir } => Ok(
                if want_file {
                    *is_file
                } else {
                    *is_dir
                },
            ),
        },
    }
}

/// The value of one helper call.
pub fn eval_call(name: &String, args: &Vec<String>, context: &ConditionContext, facts: &ConditionFacts) -> (r:
    Result<bool, ConditionError>)
    ensures
        match r {
            Ok(b) => eval_call_spec(name@, args_view(args@), context@, facts@) == Ok::<
                bool,
                SpecConditionError,
            >(b),
            Err(err) => eval_call_spec(name@, args_view(args@), context@, facts@) == Err::<
                bool,
                SpecConditionError,
            >(err@),
        },
{
    let n = chars_of(name.as_str());
    let k = match arity(&n) {
        None => {
            return Err(ConditionError::UnknownFunction(name.clone()));
        },
        Some(k) => k,
    };
    expect_arity(name, args, k)?;
    assert(args_view(args@)[0] == args@[0]@);
    if name_is(&n, "os_is") {
        let os = chars_of(facts.os.as_str());
        let a = chars_of(args[0].as_str());
        Ok(chars_eq(&os, &a))
    } else if name_is(&n, "file_exists") {
        path_helper(&args[0], true, context, facts)
    } else if name_is(&n, "dir_exists") {
        path_helper(&args[0], false, context, facts)
    } else if name_is(&n, "env_exists") {
        let a = chars_of(args[0].as_str());
        match find_env_fact(facts, &a) {
            None => Err(ConditionError::MissingFact(args[0].clone())),
            Some(b) => Ok(b),
        }
    } else if name_is(&n, "input_exists") {
        let a = chars_of(args[0].as_str());
        match lookup_index(&context.values, &a) {
            Some(i) => Ok(!context.values[i].1.as_str().is_empty()),
            None => Ok(false),
        }
    } else {
        assert(args_view(args@)[1] == args@[1]@);
        let a = chars_of(args[0].as_str());
        match lookup_index(&context.values, &a) {
            Some(i) => {
                let v = chars_of(context.values[i].1.as_str());
                let b = chars_of(args[1].as_str());
                Ok(chars_eq(&v, &b))
            },
            None => Ok(false),
        }
    }
}

/// The value of an expression.
pub fn eval(e: &Expr, context: &ConditionContext, facts: &ConditionFacts) -> (r: Result<
    bool,
    ConditionError,
>)
    ensures
        match r {
            Ok(b) => eval_spec(e@, context@, facts@) == Ok::<bool, SpecConditionError>(b),
            Err(err) => eval_spec(e@, context@, facts@) == Err::<bool, SpecConditionError>(err@),
        },
    decreases e,
{
    match e {
        Expr::Not(inner) => Ok(!eval(inner, context, facts)?),
        Expr::And(l, r) => Ok(eval(l, context, facts)? && eval(r, context, facts)?),
        Expr::Or(l, r) => Ok(eval(l, context, facts)? || eval(r, context, facts)?),
        Expr::Call { name, args } => eval_call(name, args, context, facts),
    }
}

/// Parses a condition and evaluates it.
pub fn evaluate(condition: &str, context: &ConditionContext, facts: &ConditionFacts) -> (r: Result<
    bool,
    ConditionError,
>)
    ensures
        match r {
            Ok(b) => evaluate_spec(condition@, context@, facts@) == Ok::<bool, SpecConditionError>(
                b,
            ),
            Err(err) => evaluate_spec(condition@, context@, facts@) == Err::<
                bool,
                SpecConditionError,
            >(err@),
        },
{
    let expr = parse(condition)?;
    eval(&expr, context, facts)
}

/// Collects the questions of an expression.
fn collect_probes(e: &Expr, context: &ConditionContext, out: &mut Vec<Probe>)
    ensures
        final(out)@.map_values(|p: Probe| p@) == old(out)@.map_values(|p: Probe| p@) + probes_of(
            e@,
            context@,
        ),
    decreases e,
{
    match e {
        Expr::Not(inner) => collect_probes(inner, context, out),
        Expr::And(l, r) => {
            collect_probes(l, context, out);
            collect_probes(r, context, out);
            proof {
                assert(probes_of(e@, context@) == probes_of(l@, context@) + probes_of(r@, context@));
            }
        },
        Expr::Or(l, r) => {
            collect_probes(l, context, out);
            collect_probes(r, context, out);
            proof {
                assert(probes_of(e@, context@) == probes_of(l@, context@) + probes_of(r@, context@));
            }
        },
        Expr::Call { name, args } => {
            let ghost before = out@.map_values(|p: Probe| p@);
            let n = chars_of(name.as_str());
            if args.len() == 1 && (name_is(&n, "file_exists") || name_is(&n, "dir_exists")) {
                assert(args_view(args@)[0] == args@[0]@);
                match condition_path(&args[0], context) {
                    Ok(p) => {
                        out.push(Probe::Path(p));
                        proof {
                            assert(out@.map_values(|p: Probe| p@) =~= before + probes_of(
                                e@,
                                context@,
                            ));
                        }
                    },
                    Err(_) => {
                        proof {
                            assert(out@.map_values(|p: Probe| p@) =~= before + probes_of(
                                e@,
                                context@,
                            ));
                        }
                    },
                }
            } else if args.len() == 1 && name_is(&n, "env_exists") {
                assert(args_view(args@)[0] == args@[0]@);
                out.push(Probe::Env(args[0].clone()));
                proof {
                    assert(out@.map_values(|p: Probe| p@) =~= before + probes_of(e@, context@));
                }
            } else {
                proof {
                    assert(out@.map_values(|p: Probe| p@) =~= before + probes_of(e@, context@));
                }
            }
        },
    }
}

/// The questions that evaluating `condition` may ask the machine.
pub fn condition_probes(condition: &str, context: &ConditionContext) -> (r: Result<
    Vec<Probe>,
    ConditionError,
>)
    ensures
        match r {
            Ok(v) => parse_spec(condition@) is Ok && v@.map_values(|p: Probe| p@) == probes_of(
                parse_spec(condition@)->Ok_0,
                context@,
            ),
            Err(err) => parse_spec(condition@) == Err::<SpecExpr, SpecConditionError>(err@),
        },
{
    let expr = parse(condition)?;
    let mut out: Vec<Probe> = Vec::new();
    collect_probes(&expr, context, &mut out);
    proof {
        assert(out@.map_values(|p: Probe| p@) =~= probes_of(expr@, context@));
    }
    Ok(out)
}


/// An error that comes from a helper's argument or from the machine, not from the text of the
/// condition.
pub open spec fn is_runtime_error(e: SpecConditionError) -> bool {
    ||| e is Interpolate
    ||| e is UnsafePath
    ||| e is PathRejected
    ||| e is MissingFact
}

/// A condition whose helpers all exist with their number of arguments fails at evaluation
/// only on a helper's argument or an answer from the machine.
pub proof fn lemma_valid_expr_fails_only_at_runtime(e: SpecExpr, ctx: SpecContext, facts: SpecFacts)
    requires
        validate_expr_spec(e) is Ok,
    ensures
        eval_spec(e, ctx, facts) matches Err(err) ==> is_runtime_error(err),
    decreases e,
{
    match e {
        SpecExpr::Not(inner) => lemma_valid_expr_fails_only_at_runtime(*inner, ctx, facts),
        SpecExpr::And(l, r) => {
            lemma_valid_expr_fails_only_at_runtime(*l, ctx, facts);
            lemma_valid_expr_fails_only_at_runtime(*r, ctx, facts);
        },
        SpecExpr::Or(l, r) => {
            lemma_valid_expr_fails_only_at_runtime(*l, ctx, facts);
            lemma_valid_expr_fails_only_at_runtime(*r, ctx, facts);
        },
        SpecExpr::Call { name, args } => {},
    }
}

/// A condition that `validate_syntax` accepts fails at evaluation only on a helper's argument
/// or an answer from the machine.
pub proof fn lemma_validated_condition_fails_only_at_runtime(
    s: Seq<char>,
    ctx: SpecContext,
    facts: SpecFacts,
)
    requires
        validate_syntax_spec(s) is Ok,
    ensures
        evaluate_spec(s, ctx, facts) matches Err(err) ==> is_runtime_error(err),
{
    lemma_valid_expr_fails_only_at_runtime(parse_spec(s)->Ok_0, ctx, facts);
}

/// Evaluation stopped for want of an answer from the machine.
pub open spec fn lacks_answer(r: Result<bool, SpecConditionError>) -> bool {
    r is Err && r->Err_0 is MissingFact
}

/// Facts that answer every probe of `e` never leave evaluation without an answer.
pub proof fn lemma_answered_probes_suffice(e: SpecExpr, ctx: SpecContext, facts: SpecFacts)
    requires
        answers_all(facts, probes_of(e, ctx)),
    ensures
        !lacks_answer(eval_spec(e, ctx, facts)),
    decreases e,
{
    match e {
        SpecExpr::Not(inner) => {
            assert(probes_of(e, ctx) == probes_of(*inner, ctx));
            lemma_answered_probes_suffice(*inner, ctx, facts);
            match eval_spec(*inner, ctx, facts) {
                Ok(b) => {
                    assert(eval_spec(e, ctx, facts) == Ok::<bool, SpecConditionError>(!b));
                },
                Err(err) => {
                    assert(!(err is MissingFact));
                    assert(eval_spec(e, ctx, facts) == Err::<bool, SpecConditionError>(err));
                },
            }
        },
        SpecExpr::And(l, r) => {
            let pl = probes_of(*l, ctx);
            let pr = probes_of(*r, ctx);
            assert forall|i: int| 0 <= i < pl.len() implies match #[trigger] pl[i] {
                SpecProbe::Path(p) => find_fact(facts.paths, p) is Some,
                SpecProbe::Env(n) => find_fact(facts.env_vars, n) is Some,
            } by {
                assert((pl + pr)[i] == pl[i]);
            }
            assert forall|i: int| 0 <= i < pr.len() implies match #[trigger] pr[i] {
                SpecProbe::Path(p) => find_fact(facts.paths, p) is Some,
                SpecProbe::Env(n) => find_fact(facts.env_vars, n) is Some,
            } by {
                assert((pl + pr)[pl.len() + i] == pr[i]);
            }
            lemma_answered_probes_suffice(*l, ctx, facts);
            lemma_answered_probes_suffice(*r, ctx, facts);
        },
        SpecExpr::Or(l, r) => {
            let pl = probes_of(*l, ctx);
            let pr = probes_of(*r, ctx);
            assert forall|i: int| 0 <= i < pl.len() implies match #[trigger] pl[i] {
                SpecProbe::Path(p) => find_fact(facts.paths, p) is Some,
                SpecProbe::Env(n) => find_fact(facts.env_vars, n) is Some,
            } by {
                assert((pl + pr)[i] == pl[i]);
            }
            assert forall|i: int| 0 <= i < pr.len() implies match #[trigger] pr[i] {
                SpecProbe::Path(p) => find_fact(facts.paths, p) is Some,
                SpecProbe::Env(n) => find_fact(facts.env_vars, n) is Some,
            } by {
                assert((pl + pr)[pl.len() + i] == pr[i]);
            }
            lemma_answered_probes_suffice(*l, ctx, facts);
            lemma_answered_probes_suffice(*r, ctx, facts);
        },
        SpecExpr::Call { name, args } => {
            let ps = probes_of(e, ctx);
            if args.len() == 1 && (name == "file_exists"@ || name == "dir_exists"@) {
                if let Ok(p) = condition_path_spec(args[0], ctx) {
                    assert(ps[0] == SpecProbe::Path(p));
                }
            } else if args.len() == 1 && name == "env_exists"@ {
                assert(ps[0] == SpecProbe::Env(args[0]));
            }
        },
    }
}

/// For a condition that parses, facts that answer every probe that `condition_probes` lists
/// never leave evaluation without an answer.
pub proof fn lemma_condition_probes_suffice(s: Seq<char>, ctx: SpecContext, facts: SpecFacts)
    requires
        parse_spec(s) is Ok,
        answers_all(facts, probes_of(parse_spec(s)->Ok_0, ctx)),
    ensures
        !lacks_answer(evaluate_spec(s, ctx, facts)),
{
    lemma_answered_probes_suffice(parse_spec(s)->Ok_0, ctx, facts);
}


/// `input_equals(n, v)` answers true.
pub open spec fn input_equals_holds(n: Seq<char>, v: Seq<char>, ctx: SpecContext, facts: SpecFacts) -> bool {
    eval_call_spec("input_equals"@, seq![n, v], ctx, facts) == Ok::<bool, SpecConditionError>(true)
}

/// An input exists exactly when it has a nonempty value: `input_exists(n)` always answers, and
/// holds when and only when `input_equals(n, v)` holds for some nonempty text `v`; an input
/// whose value is empty does not exist, nor one that has no value.
pub proof fn lemma_input_exists_means_nonempty(n: Seq<char>, ctx: SpecContext, facts: SpecFacts)
    ensures
        eval_call_spec("input_exists"@, seq![n], ctx, facts) is Ok,
        eval_spec(SpecExpr::Call { name: "input_exists"@, args: seq![n] }, ctx, facts) == eval_call_spec(
            "input_exists"@,
            seq![n],
            ctx,
            facts,
        ),
        (eval_call_spec("input_exists"@, seq![n], ctx, facts) == Ok::<bool, SpecConditionError>(true)) <==> (exists|
            v: Seq<char>,
        |
            v.len() > 0 && #[trigger] input_equals_holds(n, v, ctx, facts)),
        lookup(ctx.values, n) == Some(Seq::<char>::empty()) ==> eval_call_spec("input_exists"@, seq![n], ctx, facts)
            == Ok::<bool, SpecConditionError>(false),
        lookup(ctx.values, n) is None ==> eval_call_spec("input_exists"@, seq![n], ctx, facts) == Ok::<
            bool,
            SpecConditionError,
        >(false),
{
    reveal_strlit("os_is");
    reveal_strlit("file_exists");
    reveal_strlit("dir_exists");
    reveal_strlit("env_exists");
    reveal_strlit("input_exists");
    reveal_strlit("input_equals");
    assert("input_exists"@.len() == 12);
    assert("os_is"@.len() == 5);
    assert("file_exists"@.len() == 11);
    assert("input_equals"@.len() == 12);
    assert("input_exists"@ != "os_is"@);
    assert("input_exists"@ != "file_exists"@);
    assert("input_exists"@ != "dir_exists"@);
    assert("input_exists"@ != "env_exists"@);
    assert("input_exists"@ != "input_equals"@) by {
        assert("input_exists"@[7] != "input_equals"@[7]);
    }
    assert("input_equals"@ != "os_is"@);
    assert("input_equals"@ != "file_exists"@);
    assert("input_equals"@ != "dir_exists"@);
    assert("input_equals"@ != "env_exists"@);
    assert(arity_of("input_exists"@) == Some(1nat));
    assert(arity_of("input_equals"@) == Some(2nat));
    assert(seq![n].len() == 1);
    match lookup(ctx.values, n) {
        Some(v) => {
            if v.len() > 0 {
                assert(input_equals_holds(n, v, ctx, facts));
            } else {
                assert forall|w: Seq<char>| w.len() > 0 implies !#[trigger] input_equals_holds(n, w, ctx, facts) by {
                    assert(seq![n, w][0] == n && seq![n, w][1] == w);
                }
            }
        },
        None => {
            assert forall|w: Seq<char>| w.len() > 0 implies !#[trigger] input_equals_holds(n, w, ctx, facts) by {
                assert(seq![n, w][0] == n && seq![n, w][1] == w);
            }
        },
    }
}

} // verus!

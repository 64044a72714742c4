//! Numbers in text: decimal digits, short manifest IDs, release versions, byte counts and
//! ages.
use vstd::prelude::*;
use crate::text::{char_is_digit, chars_eq, chars_of, is_digit, push_all, string_of, trim, trim_exec};

verus! {

/// The character of the decimal digit `d`.
pub open spec fn digit_char(d: nat) -> char {
    (48 + d) as char
}

/// The value of a decimal digit character.
pub open spec fn digit_value(c: char) -> nat {
    (c as u32 - 48) as nat
}

/// `n` in decimal, without leading zeros.
pub open spec fn decimal(n: nat) -> Seq<char>
    decreases n,
{
    if n < 10 {
        seq![digit_char(n)]
    } else {
        decimal(n / 10).push(digit_char(n % 10))
    }
}

/// Every character of `s` is an ASCII digit.
pub open spec fn all_digits(s: Seq<char>) -> bool {
    forall|i: int| 0 <= i < s.len() ==> is_digit(#[trigger] s[i])
}

/// The number that the digits `s` spell.
pub open spec fn digits_value(s: Seq<char>) -> nat
    decreases s.len(),
{
    if s.len() == 0 {
        0
    } else {
        digits_value(s.drop_last()) * 10 + digit_value(s.last())
    }
}

pub fn digit_char_exec(d: u64) -> (c: char)
    requires
        d < 10,
    ensures
        c == digit_char(d as nat),
{
    let b: u8 = 48u8 + (d as u8);
    b as char
}

/// `n` in decimal.
pub fn decimal_exec(n: u64) -> (r: Vec<char>)
    ensures
        r@ == decimal(n as nat),
    decreases n,
{
    if n < 10 {
        let mut v: Vec<char> = Vec::new();
        v.push(digit_char_exec(n));
        proof {
            assert(v@ =~= seq![digit_char(n as nat)]);
        }
        v
    } else {
        let mut v = decimal_exec(n / 10);
        v.push(digit_char_exec(n % 10));
        v
    }
}

pub proof fn lemma_decimal_digits(n: nat)
    ensures
        all_digits(decimal(n)),
        decimal(n).len() >= 1,
        digits_value(decimal(n)) == n,
        n >= 10 ==> decimal(n)[0] != '0',
    decreases n,
{
    assert('0' as u32 == 48);
    assert(digit_value(digit_char(n % 10)) == n % 10);
    assert(is_digit(digit_char(n % 10)));
    if n >= 10 {
        lemma_decimal_digits(n / 10);
        let d = decimal(n / 10);
        assert(decimal(n).drop_last() =~= d);
        assert(decimal(n)[0] == d[0]);
        assert((n / 10) * 10 + n % 10 == n) by (nonlinear_arith);
        assert forall|i: int| 0 <= i < decimal(n).len() implies is_digit(#[trigger] decimal(n)[i]) by {
            if i < d.len() {
                assert(decimal(n)[i] == d[i]);
            }
        }
        assert(digits_value(decimal(n)) == digits_value(d) * 10 + digit_value(digit_char(n % 10)));
    } else {
        assert(decimal(n).drop_last() =~= Seq::<char>::empty());
        assert(digits_value(Seq::<char>::empty()) == 0);
        assert(digits_value(decimal(n)) == digits_value(decimal(n).drop_last()) * 10 + digit_value(
            digit_char(n),
        ));
    }
}

/// `n` in decimal, at least two digits wide (what `format!("{:02}", n)` gives).
pub open spec fn pad2(n: nat) -> Seq<char> {
    if n < 10 {
        seq!['0'] + decimal(n)
    } else {
        decimal(n)
    }
}

/// Digits with a leading zero spell the same number.
pub proof fn lemma_leading_zero(s: Seq<char>)
    ensures
        digits_value(seq!['0'] + s) == digits_value(s),
    decreases s.len(),
{
    if s.len() > 0 {
        lemma_leading_zero(s.drop_last());
        assert((seq!['0'] + s).drop_last() =~= seq!['0'] + s.drop_last());
        assert((seq!['0'] + s).last() == s.last());
    } else {
        assert((seq!['0'] + s).drop_last() =~= Seq::<char>::empty());
        assert(digit_value('0') == 0);
        assert(digits_value(Seq::<char>::empty()) == 0);
        assert(s =~= Seq::<char>::empty());
        assert(digits_value(seq!['0'] + s) == digits_value((seq!['0'] + s).drop_last()) * 10
            + digit_value((seq!['0'] + s).last()));
    }
}

/// What `str::parse::<u32>` accepts: an optional `+`, then one or more digits whose number
/// fits in a `u32`.
pub open spec fn parse_u32_spec(s: Seq<char>) -> Option<u32> {
    let body = if s.len() > 0 && s[0] == '+' {
        s.drop_first()
    } else {
        s
    };
    if body.len() > 0 && all_digits(body) && digits_value(body) <= u32::MAX {
        Some(digits_value(body) as u32)
    } else {
        None
    }
}

pub proof fn lemma_digits_value_prefix(s: Seq<char>, i: int)
    requires
        0 <= i <= s.len(),
        all_digits(s),
    ensures
        digits_value(s.take(i)) <= digits_value(s),
    decreases s.len() - i,
{
    if i < s.len() {
        lemma_digits_value_prefix(s, i + 1);
        assert(s.take(i + 1).drop_last() =~= s.take(i));
    } else {
        assert(s.take(i) =~= s);
    }
}

/// The digits of `v[a..]`, read as a number, if there is at least one, all are digits and the
/// number is at most `limit`.
pub fn digits_at_most(v: &[char], a: usize, limit: u64) -> (r: Option<u64>)
    requires
        a <= v@.len(),
    ensures
        r matches Some(n) ==> v@.skip(a as int).len() > 0 && all_digits(v@.skip(a as int))
            && digits_value(v@.skip(a as int)) == n && n <= limit,
        r is None ==> !(v@.skip(a as int).len() > 0 && all_digits(v@.skip(a as int))
            && digits_value(v@.skip(a as int)) <= limit),
{
    let ghost body = v@.skip(a as int);
    if a == v.len() {
        return None;
    }
    let mut acc: u64 = 0;
    let mut i = a;
    while i < v.len()
        invariant
            a <= i <= v@.len(),
            body == v@.skip(a as int),
            acc <= limit,
            all_digits(body.take(i - a)),
            acc == digits_value(body.take(i - a)),
        decreases v@.len() - i,
    {
        let c = v[i];
        if !char_is_digit(c) {
            proof {
                assert(body[i - a] == c);
            }
            return None;
        }
        let d: u64 = (c as u32 - 48) as u64;
        proof {
            assert(body.take(i - a + 1).drop_last() =~= body.take(i - a));
            assert(body.take(i - a + 1).last() == c);
        }
        if d > limit {
            proof {
                assert(digits_value(body.take(i - a + 1)) == acc * 10 + d);
                if all_digits(body) {
                    lemma_digits_value_prefix(body, i - a + 1);
                }
            }
            return None;
        }
        if acc > (limit - d) / 10 {
            proof {
                assert(digits_value(body.take(i - a + 1)) == acc * 10 + d);
                assert(acc * 10 + d > limit) by (nonlinear_arith)
                    requires
                        acc > (limit - d) / 10,
                        d <= limit,
                ;
                if all_digits(body) {
                    lemma_digits_value_prefix(body, i - a + 1);
                }
            }
            return None;
        }
        proof {
            assert(acc * 10 + d <= limit) by (nonlinear_arith)
                requires
                    acc <= (limit - d) / 10,
                    d <= limit,
            ;
        }
        acc = acc * 10 + d;
        i = i + 1;
        proof {
            assert forall|j: int| 0 <= j < i - a implies is_digit(#[trigger] body.take(i - a)[j]) by {
                if j < i - a - 1 {
                    assert(body.take(i - a)[j] == body.take(i - a - 1)[j]);
                }
            }
        }
    }
    proof {
        assert(body.take(i - a) =~= body);
    }
    Some(acc)
}

/// Reads a `u32` as `str::parse::<u32>` does.
pub fn parse_u32(s: &str) -> (r: Option<u32>)
    ensures
        r == parse_u32_spec(s@),
{
    let v = chars_of(s);
    let a: usize = if v.len() > 0 && v[0] == '+' {
        1
    } else {
        0
    };
    proof {
        if a == 1 {
            assert(v@.skip(1) =~= v@.drop_first());
        } else {
            assert(v@.skip(0) =~= v@);
        }
    }
    match digits_at_most(&v, a, 0xffff_ffff) {
        Some(n) => Some(n as u32),
        None => None,
    }
}

/// The largest number among the IDs that read as a `u32`, or 0.
pub open spec fn max_numeric_id(ids: Seq<Seq<char>>) -> nat
    decreases ids.len(),
{
    if ids.len() == 0 {
        0
    } else {
        let rest = max_numeric_id(ids.drop_last());
        match parse_u32_spec(ids.last()) {
            Some(n) => if n > rest {
                n as nat
            } else {
                rest
            },
            None => rest,
        }
    }
}

pub open spec fn strs_view(v: Seq<&str>) -> Seq<Seq<char>> {
    v.map_values(|s: &str| s@)
}

/// The next short manifest ID: one more than the largest numeric ID, at least two digits wide.
pub open spec fn next_id_spec(ids: Seq<Seq<char>>) -> Seq<char> {
    pad2(max_numeric_id(ids) + 1)
}

/// Allocates the next short manifest ID after `existing`.  The largest numeric ID must leave
/// room for one more.
pub fn allocate_next_id(existing: &[&str]) -> (r: String)
    requires
        max_numeric_id(strs_view(existing@)) < u32::MAX,
    ensures
        r@ == next_id_spec(strs_view(existing@)),
{
    let ghost ids = strs_view(existing@);
    let mut max: u32 = 0;
    let mut i: usize = 0;
    proof {
        assert(ids.take(0) =~= Seq::<Seq<char>>::empty());
    }
    while i < existing.len()
        invariant
            0 <= i <= existing@.len(),
            ids == strs_view(existing@),
            max == max_numeric_id(ids.take(i as int)),
        decreases existing@.len() - i,
    {
        let parsed = parse_u32(existing[i]);
        proof {
            assert(ids.take(i + 1).drop_last() =~= ids.take(i as int));
            assert(ids.take(i + 1).last() == existing@[i as int]@);
        }
        match parsed {
            Some(n) => {
                if n > max {
                    max = n;
                }
            },
            None => {},
        }
        i = i + 1;
    }
    proof {
        assert(ids.take(i as int) =~= ids);
    }
    let next = max + 1;
    let digits = decimal_exec(next as u64);
    let mut out: Vec<char> = Vec::new();
    if next < 10 {
        out.push('0');
    }
    push_all(&mut out, &digits);
    proof {
        if next < 10 {
            assert(out@ =~= seq!['0'] + decimal(next as nat));
        } else {
            assert(out@ =~= decimal(next as nat));
        }
    }
    string_of(&out)
}

pub proof fn lemma_max_numeric_id(ids: Seq<Seq<char>>, k: int)
    requires
        0 <= k < ids.len(),
        parse_u32_spec(ids[k]) is Some,
    ensures
        parse_u32_spec(ids[k])->Some_0 <= max_numeric_id(ids),
    decreases ids.len(),
{
    if k < ids.len() - 1 {
        assert(ids.drop_last()[k] == ids[k]);
        lemma_max_numeric_id(ids.drop_last(), k);
    }
}

/// A newly allocated ID reads as a number larger than every existing numeric ID, so it is
/// new.
/// The next ID reads back as the number after the largest numeric ID.
pub proof fn lemma_next_id_parses(ids: Seq<Seq<char>>)
    requires
        max_numeric_id(ids) < u32::MAX,
    ensures
        parse_u32_spec(next_id_spec(ids)) == Some((max_numeric_id(ids) + 1) as u32),
{
    let n = max_numeric_id(ids) + 1;
    lemma_decimal_digits(n);
    let s = next_id_spec(ids);
    if n < 10 {
        lemma_leading_zero(decimal(n));
        assert(all_digits(s)) by {
            assert forall|i: int| 0 <= i < s.len() implies is_digit(#[trigger] s[i]) by {
                if i > 0 {
                    assert(s[i] == decimal(n)[i - 1]);
                }
            }
        }
    }
}

pub proof fn lemma_next_id_is_fresh(ids: Seq<Seq<char>>, k: int)
    requires
        max_numeric_id(ids) < u32::MAX,
        0 <= k < ids.len(),
        parse_u32_spec(ids[k]) is Some,
    ensures
        parse_u32_spec(next_id_spec(ids)) == Some((max_numeric_id(ids) + 1) as u32),
        parse_u32_spec(ids[k])->Some_0 < max_numeric_id(ids) + 1,
{
    lemma_max_numeric_id(ids, k);
    lemma_next_id_parses(ids);
}


/// `2^e`.
pub open spec fn two_pow(e: nat) -> nat
    decreases e,
{
    if e == 0 {
        1
    } else {
        2 * two_pow((e - 1) as nat)
    }
}

/// The number of significand values of an `f64`: `2^53`.
pub open spec fn f64_span() -> nat {
    9007199254740992
}

/// The exponent of the spacing of `f64` values around `b`: the least `e` with `b / 2^e`
/// below `2^53`.
pub open spec fn scale_exp(b: nat, e: nat) -> nat
    decreases 64 - e,
{
    if e >= 64 || b / two_pow(e) < f64_span() {
        e
    } else {
        scale_exp(b, e + 1)
    }
}

/// `n / d` rounded to the nearest integer, ties to the even one.
pub open spec fn round_half_even(n: nat, d: nat) -> nat {
    let q = n / d;
    let r = n % d;
    if 2 * r > d || (2 * r == d && q % 2 == 1) {
        q + 1
    } else {
        q
    }
}

/// The value of `b as f64`: `b` rounded to 53 significant bits, ties to even.
pub open spec fn as_f64(b: nat) -> nat {
    let u = two_pow(scale_exp(b, 0));
    round_half_even(b, u) * u
}

/// `t / 10` with one decimal: the integer part, a point, and the tenths digit.
pub open spec fn one_decimal(t: nat) -> Seq<char> {
    decimal(t / 10) + seq!['.', digit_char(t % 10)]
}

/// What `format_bytes` prints: the size in the largest unit that it reaches, with one
/// decimal rounded half to even as `{:.1}` does on the `f64` value, or in bytes.
pub open spec fn format_bytes_spec(b: nat) -> Seq<char> {
    let v = as_f64(b);
    if v >= 1073741824 {
        one_decimal(round_half_even((v * 10) as nat, 1073741824)) + seq![' ', 'G', 'B']
    } else if v >= 1048576 {
        one_decimal(round_half_even((v * 10) as nat, 1048576)) + seq![' ', 'M', 'B']
    } else if v >= 1024 {
        one_decimal(round_half_even((v * 10) as nat, 1024)) + seq![' ', 'K', 'B']
    } else {
        decimal(b) + seq![' ', 'B']
    }
}

fn round_half_even_exec(n: u128, d: u128) -> (r: u128)
    requires
        d > 0,
        n / d < 0xffff_ffff_ffff_ffff_ffff_ffff_ffff_fff0,
    ensures
        r == round_half_even(n as nat, d as nat),
{
    let q = n / d;
    let r = n % d;
    let half_up = r > d - r || (r == d - r && q % 2 == 1);
    if half_up {
        q + 1
    } else {
        q
    }
}

fn one_decimal_exec(t: u128) -> (r: Vec<char>)
    requires
        t / 10 <= 0xffff_ffff_ffff_ffff,
    ensures
        r@ == one_decimal(t as nat),
{
    let mut r = decimal_exec((t / 10) as u64);
    r.push('.');
    r.push(digit_char_exec((t % 10) as u64));
    proof {
        assert(r@ =~= decimal((t / 10) as nat) + seq!['.', digit_char((t % 10) as nat)]);
    }
    r
}

proof fn lemma_two_pow_small(e: nat)
    requires
        e <= 11,
    ensures
        1 <= two_pow(e) <= 2048,
        e < 11 ==> two_pow(e) <= 1024,
        two_pow(e) == 2048 <==> e == 11,
        two_pow(e + 1) == 2 * two_pow(e),
{
    reveal_with_fuel(two_pow, 13);
    if e == 0 {
    } else if e == 1 {
    } else if e == 2 {
    } else if e == 3 {
    } else if e == 4 {
    } else if e == 5 {
    } else if e == 6 {
    } else if e == 7 {
    } else if e == 8 {
    } else if e == 9 {
    } else if e == 10 {
    } else {
    }
}

/// The value of `b as f64`.
fn as_f64_exec(b: u64) -> (r: u128)
    ensures
        r == as_f64(b as nat),
        r <= 0x1_0000_0000_0000_0000,
        b < 1073741824 ==> r == b,
{
    let mut unit: u64 = 1;
    let ghost mut e: nat = 0;
    while b / unit >= 9007199254740992
        invariant
            unit == two_pow(e),
            1 <= unit <= 2048,
            e <= 11,
            b < 9007199254740992 ==> unit == 1,
            scale_exp(b as nat, 0) == scale_exp(b as nat, e),
        decreases 64 - e,
    {
        proof {
            if unit >= 2048 {
                assert(b / unit < 9007199254740992) by (nonlinear_arith)
                    requires
                        unit >= 2048,
                        b <= 0xffff_ffff_ffff_ffff,
                ;
            }
            lemma_two_pow_small(e);
            if b < 9007199254740992 {
                assert(b / 1 == b);
            }
        }
        unit = unit * 2;
        proof {
            e = e + 1;
        }
    }
    proof {
        if b < 9007199254740992 {
            assert(unit == 1);
            assert(b / 1 == b && b % 1 == 0);
        }
    }
    let q = b / unit;
    let rem = b % unit;
    let rounded: u64 = if rem > unit - rem || (rem == unit - rem && q % 2 == 1) {
        q + 1
    } else {
        q
    };
    proof {
        assert(q < 9007199254740992);
        assert(rounded as nat == round_half_even(b as nat, unit as nat));
        assert((rounded as nat) * (unit as nat) <= 0x1_0000_0000_0000_0000) by (nonlinear_arith)
            requires
                rounded <= 9007199254740992,
                unit <= 2048,
        ;
        if b < 1073741824 {
            assert(unit == 1);
        }
    }
    (rounded as u128) * (unit as u128)
}

/// A byte count for people: `42 B`, `2.0 KB`, `2.0 MB`, `1.5 GB`.
pub fn format_bytes(bytes: u64) -> (r: String)
    ensures
        r@ == format_bytes_spec(bytes as nat),
{
    let v = as_f64_exec(bytes);
    let mut out: Vec<char>;
    if v >= 1073741824 {
        out = one_decimal_exec(round_half_even_exec(v * 10, 1073741824));
        out.push(' ');
        out.push('G');
        out.push('B');
    } else if v >= 1048576 {
        out = one_decimal_exec(round_half_even_exec(v * 10, 1048576));
        out.push(' ');
        out.push('M');
        out.push('B');
    } else if v >= 1024 {
        out = one_decimal_exec(round_half_even_exec(v * 10, 1024));
        out.push(' ');
        out.push('K');
        out.push('B');
    } else {
        out = decimal_exec(bytes);
        out.push(' ');
        out.push('B');
    }
    proof {
        if v >= 1073741824 {
            assert(out@ =~= one_decimal(round_half_even((v * 10) as nat, 1073741824)) + seq![' ', 'G', 'B']);
        } else if v >= 1048576 {
            assert(out@ =~= one_decimal(round_half_even((v * 10) as nat, 1048576)) + seq![' ', 'M', 'B']);
        } else if v >= 1024 {
            assert(out@ =~= one_decimal(round_half_even((v * 10) as nat, 1024)) + seq![' ', 'K', 'B']);
        } else {
            assert(out@ =~= decimal(bytes as nat) + seq![' ', 'B']);
        }
    }
    string_of(&out)
}

/// The unit of an age.
#[derive(Debug, Clone, Copy, PartialEq, Eq)]
pub enum AgeUnit {
    Days,
    Hours,
    Minutes,
    Seconds,
}

/// An age such as `30d`: an amount and its unit.
#[derive(Debug, Clone, Copy, PartialEq, Eq)]
pub struct Age {
    pub amount: i64,
    pub unit: AgeUnit,
}

/// Seconds in one unit of age.
pub open spec fn unit_secs(u: AgeUnit) -> int {
    match u {
        AgeUnit::Days => 86400,
        AgeUnit::Hours => 3600,
        AgeUnit::Minutes => 60,
        AgeUnit::Seconds => 1,
    }
}

/// The longest span, in seconds, that a time delta holds: `i64::MAX` milliseconds.
pub open spec fn max_delta_secs() -> int {
    9223372036854775
}

impl Age {
    /// The age in seconds.
    pub open spec fn total_secs(self) -> int {
        self.amount * unit_secs(self.unit)
    }

    /// Whether the age fits in the span a time delta holds.
    pub fn within_delta_range(&self) -> (r: bool)
        ensures
            r == (0 <= self.amount && self.total_secs() <= max_delta_secs()),
    {
        if self.amount < 0 {
            return false;
        }
        match self.unit {
            AgeUnit::Days => self.amount <= 9223372036854775 / 86400,
            AgeUnit::Hours => self.amount <= 9223372036854775 / 3600,
            AgeUnit::Minutes => self.amount <= 9223372036854775 / 60,
            AgeUnit::Seconds => self.amount <= 9223372036854775,
        }
    }

    /// The age in seconds. Ages beyond the span a time delta holds are out of range.
    pub fn seconds(&self) -> (r: i64)
        requires
            0 <= self.amount,
            self.total_secs() <= max_delta_secs(),
        ensures
            r == self.total_secs(),
    {
        match self.unit {
            AgeUnit::Days => self.amount * 86400,
            AgeUnit::Hours => self.amount * 3600,
            AgeUnit::Minutes => self.amount * 60,
            AgeUnit::Seconds => self.amount,
        }
    }
}

/// Why an age was refused.
#[derive(Debug, Clone, PartialEq, Eq)]
pub enum AgeError {
    Empty,
    MissingNumber,
    InvalidNumber,
    UnsupportedUnit(String),
}

pub enum SpecAgeError {
    Empty,
    MissingNumber,
    InvalidNumber,
    UnsupportedUnit(Seq<char>),
}

impl View for AgeError {
    type V = SpecAgeError;

    open spec fn view(&self) -> SpecAgeError {
        match self {
            AgeError::Empty => SpecAgeError::Empty,
            AgeError::MissingNumber => SpecAgeError::MissingNumber,
            AgeError::InvalidNumber => SpecAgeError::InvalidNumber,
            AgeError::UnsupportedUnit(u) => SpecAgeError::UnsupportedUnit(u@),
        }
    }
}

/// The unit a suffix names.
pub open spec fn age_unit_of(u: Seq<char>) -> Option<AgeUnit> {
    if u.len() == 0 || u == "d"@ || u == "day"@ || u == "days"@ {
        Some(AgeUnit::Days)
    } else if u == "h"@ || u == "hour"@ || u == "hours"@ {
        Some(AgeUnit::Hours)
    } else if u == "m"@ || u == "min"@ || u == "mins"@ || u == "minute"@ || u == "minutes"@ {
        Some(AgeUnit::Minutes)
    } else if u == "s"@ || u == "sec"@ || u == "secs"@ || u == "second"@ || u == "seconds"@ {
        Some(AgeUnit::Seconds)
    } else {
        None
    }
}

pub open spec fn digit_pred() -> spec_fn(char) -> bool {
    |c: char| is_digit(c)
}

/// What `parse_age` decides: after trimming, a number then a unit suffix (days when none).
pub open spec fn parse_age_spec(s: Seq<char>) -> Result<(nat, AgeUnit), SpecAgeError> {
    let t = trim(s);
    let split = crate::text::skip_while(t, digit_pred(), 0);
    let amount = t.take(split);
    let unit = t.skip(split);
    if t.len() == 0 {
        Err(SpecAgeError::Empty)
    } else if amount.len() == 0 {
        Err(SpecAgeError::MissingNumber)
    } else if digits_value(amount) > i64::MAX {
        Err(SpecAgeError::InvalidNumber)
    } else {
        match age_unit_of(unit) {
            None => Err(SpecAgeError::UnsupportedUnit(unit)),
            Some(u) => Ok((digits_value(amount), u)),
        }
    }
}

proof fn lemma_age_split(d: Seq<char>, u: Seq<char>)
    requires
        d.len() > 0,
        all_digits(d),
        u.len() == 0 || (!is_digit(u[0]) && !crate::text::is_ws(u[u.len() - 1])),
    ensures
        trim(d + u) == d + u,
        crate::text::skip_while(d + u, digit_pred(), 0) == d.len(),
        (d + u).take(d.len() as int) == d,
        (d + u).skip(d.len() as int) == u,
{
    let s = d + u;
    assert(is_digit(d[0]));
    assert(s[0] == d[0]);
    if u.len() == 0 {
        assert(s[s.len() - 1] == d[d.len() - 1]);
        assert(is_digit(d[d.len() - 1]));
    } else {
        assert(s[s.len() - 1] == u[u.len() - 1]);
    }
    crate::text::lemma_trim_plain(s);
    crate::text::lemma_skip_while(s, digit_pred(), 0);
    let k = crate::text::skip_while(s, digit_pred(), 0);
    if k < d.len() {
        assert(s[k] == d[k]);
        assert(is_digit(d[k]));
        assert(digit_pred()(s[k]));
    }
    if k > d.len() {
        assert(digit_pred()(s[d.len() as int]));
        assert(s[d.len() as int] == u[0]);
    }
    assert(s.take(d.len() as int) =~= d);
    assert(s.skip(d.len() as int) =~= u);
}

/// How an age reads: a number followed by a unit suffix is that many days (no suffix, `d`,
/// `day`, `days`), hours (`h`, `hour`, `hours`), minutes (`m`, `min`, `mins`, `minute`,
/// `minutes`) or seconds (`s`, `sec`, `secs`, `second`, `seconds`); any other suffix is refused.
pub proof fn lemma_age_suffixes(d: Seq<char>, u: Seq<char>)
    requires
        d.len() > 0,
        all_digits(d),
        digits_value(d) <= i64::MAX,
    ensures
        u.len() == 0 || u == "d"@ || u == "day"@ || u == "days"@ ==> parse_age_spec(d + u) == Ok::<
            (nat, AgeUnit),
            SpecAgeError,
        >((digits_value(d), AgeUnit::Days)),
        u == "h"@ || u == "hour"@ || u == "hours"@ ==> parse_age_spec(d + u) == Ok::<(nat, AgeUnit), SpecAgeError>(
            (digits_value(d), AgeUnit::Hours),
        ),
        u == "m"@ || u == "min"@ || u == "mins"@ || u == "minute"@ || u == "minutes"@ ==> parse_age_spec(d + u)
            == Ok::<(nat, AgeUnit), SpecAgeError>((digits_value(d), AgeUnit::Minutes)),
        u == "s"@ || u == "sec"@ || u == "secs"@ || u == "second"@ || u == "seconds"@ ==> parse_age_spec(d + u)
            == Ok::<(nat, AgeUnit), SpecAgeError>((digits_value(d), AgeUnit::Seconds)),
        u.len() > 0 && !is_digit(u[0]) && !crate::text::is_ws(u[u.len() - 1]) && !(u == "d"@ || u == "day"@
            || u == "days"@ || u == "h"@ || u == "hour"@ || u == "hours"@ || u == "m"@ || u == "min"@ || u
            == "mins"@ || u == "minute"@ || u == "minutes"@ || u == "s"@ || u == "sec"@ || u == "secs"@ || u
            == "second"@ || u == "seconds"@) ==> parse_age_spec(d + u) == Err::<(nat, AgeUnit), SpecAgeError>(
            SpecAgeError::UnsupportedUnit(u),
        ),
{
    reveal_strlit("d");
    reveal_strlit("day");
    reveal_strlit("days");
    reveal_strlit("h");
    reveal_strlit("hour");
    reveal_strlit("hours");
    reveal_strlit("m");
    reveal_strlit("min");
    reveal_strlit("mins");
    reveal_strlit("minute");
    reveal_strlit("minutes");
    reveal_strlit("s");
    reveal_strlit("sec");
    reveal_strlit("secs");
    reveal_strlit("second");
    reveal_strlit("seconds");
    let listed = u.len() == 0 || u == "d"@ || u == "day"@ || u == "days"@ || u == "h"@ || u == "hour"@ || u
        == "hours"@ || u == "m"@ || u == "min"@ || u == "mins"@ || u == "minute"@ || u == "minutes"@ || u
        == "s"@ || u == "sec"@ || u == "secs"@ || u == "second"@ || u == "seconds"@;
    if listed {
        if u.len() > 0 {
            assert(!is_digit(u[0]));
            assert(!crate::text::is_ws(u[u.len() - 1]));
        }
        lemma_age_split(d, u);
        assert(trim(d + u).len() > 0);
    } else if u.len() > 0 && !is_digit(u[0]) && !crate::text::is_ws(u[u.len() - 1]) {
        lemma_age_split(d, u);
        assert(trim(d + u).len() > 0);
    }
}

fn unit_is(u: &[char], lit: &str) -> (r: bool)
    ensures
        r == (u@ == lit@),
{
    chars_eq(u, &chars_of(lit))
}

/// Reads an age such as `60s`, `15m`, `12h` or `30d`.
pub fn parse_age(value: &str) -> (r: Result<Age, AgeError>)
    ensures
        match r {
            Ok(a) => parse_age_spec(value@) == Ok::<(nat, AgeUnit), SpecAgeError>(
                (a.amount as nat, a.unit),
            ) && a.amount >= 0,
            Err(e) => parse_age_spec(value@) == Err::<(nat, AgeUnit), SpecAgeError>(e@),
        },
{
    let t = trim_exec(&chars_of(value));
    if t.len() == 0 {
        return Err(AgeError::Empty);
    }
    let mut split: usize = 0;
    while split < t.len() && char_is_digit(t[split])
        invariant
            0 <= split <= t@.len(),
            crate::text::skip_while(t@, digit_pred(), 0) == crate::text::skip_while(
                t@,
                digit_pred(),
                split as int,
            ),
        decreases t@.len() - split,
    {
        split = split + 1;
    }
    if split == 0 {
        return Err(AgeError::MissingNumber);
    }
    proof {
        crate::text::lemma_skip_while(t@, digit_pred(), 0);
        assert forall|i: int| 0 <= i < split implies is_digit(#[trigger] t@.take(split as int)[i]) by {
            assert(t@.take(split as int)[i] == t@[i]);
            assert(digit_pred()(t@[i]));
        }
        assert(t@.skip(0) =~= t@);
    }
    let amount_chars = crate::text::slice_copy(&t, 0, split);
    proof {
        assert(amount_chars@.skip(0) =~= amount_chars@);
    }
    let amount = match digits_at_most(&amount_chars, 0, 0x7fff_ffff_ffff_ffff) {
        None => {
            return Err(AgeError::InvalidNumber);
        },
        Some(n) => n,
    };
    let u = crate::text::slice_copy(&t, split, t.len());
    let unit = if u.len() == 0 || unit_is(&u, "d") || unit_is(&u, "day") || unit_is(&u, "days") {
        AgeUnit::Days
    } else if unit_is(&u, "h") || unit_is(&u, "hour") || unit_is(&u, "hours") {
        AgeUnit::Hours
    } else if unit_is(&u, "m") || unit_is(&u, "min") || unit_is(&u, "mins") || unit_is(
        &u,
        "minute",
    ) || unit_is(&u, "minutes") {
        AgeUnit::Minutes
    } else if unit_is(&u, "s") || unit_is(&u, "sec") || unit_is(&u, "secs") || unit_is(
        &u,
        "second",
    ) || unit_is(&u, "seconds") {
        AgeUnit::Seconds
    } else {
        return Err(AgeError::UnsupportedUnit(string_of(&u)));
    };
    Ok(Age { amount: amount as i64, unit })
}

} // verus!

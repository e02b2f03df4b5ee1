//! The version that a Python interpreter reports of itself.

use vstd::prelude::*;
use crate::text::chars_of;

verus! {

/// Error that can occur while finding the python executable.
#[derive(Debug)]
pub enum FindPythonError {
    NotFound,
}

/// Errors that can occur while trying to parse the python version.
#[derive(Debug)]
pub enum ParsePythonInterpreterVersionError {
    /// The text is not of the form `Python x.y.z`; holds the text.
    InvalidVersion(String),
    FindPythonError(FindPythonError),
}

/// The version of a Python interpreter.
pub struct PythonInterpreterVersion {
    pub major: u32,
    pub minor: u32,
    pub patch: u32,
}

/// Whether `c` has the Unicode property `White_Space`.
pub open spec fn is_whitespace(c: char) -> bool {
    let u = c as u32;
    ||| 0x09 <= u <= 0x0D
    ||| u == 0x20
    ||| u == 0x85
    ||| u == 0xA0
    ||| u == 0x1680
    ||| 0x2000 <= u <= 0x200A
    ||| u == 0x2028
    ||| u == 0x2029
    ||| u == 0x202F
    ||| u == 0x205F
    ||| u == 0x3000
}

/// The first index at or after `i` that holds no whitespace, or the length of
/// `s` if there is none.
pub open spec fn skip_whitespace(s: Seq<char>, i: int) -> int
    decreases s.len() - i,
{
    if 0 <= i < s.len() && is_whitespace(s[i]) {
        skip_whitespace(s, i + 1)
    } else {
        i
    }
}

/// The first index at or after `i` that holds whitespace, or the length of
/// `s` if there is none.
pub open spec fn token_end(s: Seq<char>, i: int) -> int
    decreases s.len() - i,
{
    if 0 <= i < s.len() && !is_whitespace(s[i]) {
        token_end(s, i + 1)
    } else {
        i
    }
}

/// The first index at or after `i` that holds a dot, or the length of `s` if
/// there is none.
pub open spec fn field_end(s: Seq<char>, i: int) -> int
    decreases s.len() - i,
{
    if 0 <= i < s.len() && s[i] != '.' {
        field_end(s, i + 1)
    } else {
        i
    }
}

pub open spec fn is_digit(c: char) -> bool {
    '0' <= c <= '9'
}

/// The value of a decimal digit; 0 for any other character.
pub open spec fn digit_value(c: char) -> nat {
    if is_digit(c) {
        (c as u32 - '0' as u32) as nat
    } else {
        0
    }
}

/// The number that a sequence of decimal digits denotes.
pub open spec fn digits_value(d: Seq<char>) -> nat
    decreases d.len(),
{
    if d.len() == 0 {
        0
    } else {
        digits_value(d.drop_last()) * 10 + digit_value(d.last())
    }
}

/// `t` without the `+` that it may start with.
pub open spec fn without_plus(t: Seq<char>) -> Seq<char> {
    if t.len() > 0 && t[0] == '+' {
        t.subrange(1, t.len() as int)
    } else {
        t
    }
}

/// The `u32` that the digits `d` denote: one digit or more, the value no
/// more than `u32::MAX`.
pub open spec fn digits_to_u32(d: Seq<char>) -> Option<u32> {
    if d.len() > 0 && (forall|i: int| 0 <= i < d.len() ==> is_digit(#[trigger] d[i]))
        && digits_value(d) <= u32::MAX {
        Some(digits_value(d) as u32)
    } else {
        None
    }
}

/// The `u32` that `t` denotes in decimal: an optional `+`, then one digit or
/// more, the value no more than `u32::MAX`.
pub open spec fn parse_u32(t: Seq<char>) -> Option<u32> {
    digits_to_u32(without_plus(t))
}

/// The word that the output of `python --version` starts with.
pub open spec fn python_word() -> Seq<char> {
    seq!['P', 'y', 't', 'h', 'o', 'n']
}

/// The three numbers in `Python x.y.z`: the first word of `s` is `Python`,
/// the second starts with three fields separated by dots, and each of the
/// three is a `u32`. What follows the third field or the second word is
/// ignored.
pub open spec fn python_version_of(s: Seq<char>) -> Option<(u32, u32, u32)> {
    let a0 = skip_whitespace(s, 0);
    let b0 = token_end(s, a0);
    let a1 = skip_whitespace(s, b0);
    let b1 = token_end(s, a1);
    let v = s.subrange(a1, b1);
    let e0 = field_end(v, 0);
    let e1 = field_end(v, e0 + 1);
    let e2 = field_end(v, e1 + 1);
    if a0 < s.len() && s.subrange(a0, b0) == python_word() && a1 < s.len() && e0 < v.len() && e1
        < v.len() {
        match (
            parse_u32(v.subrange(0, e0)),
            parse_u32(v.subrange(e0 + 1, e1)),
            parse_u32(v.subrange(e1 + 1, e2)),
        ) {
            (Some(major), Some(minor), Some(patch)) => Some((major, minor, patch)),
            _ => None,
        }
    } else {
        None
    }
}

proof fn lemma_digits_value_step(d: Seq<char>, n: int)
    requires
        0 <= n < d.len(),
    ensures
        digits_value(d.take(n + 1)) == digits_value(d.take(n)) * 10 + digit_value(d[n]),
        digits_value(d.take(n + 1)) >= digits_value(d.take(n)),
{
    assert(d.take(n + 1).drop_last() =~= d.take(n));
    assert(d.take(n + 1).last() == d[n]);
}

proof fn lemma_digits_value_monotone(d: Seq<char>, n: int, m: int)
    requires
        0 <= n <= m <= d.len(),
    ensures
        digits_value(d.take(n)) <= digits_value(d.take(m)),
    decreases m - n,
{
    if n < m {
        lemma_digits_value_step(d, m - 1);
        lemma_digits_value_monotone(d, n, m - 1);
    }
}

fn is_whitespace_char(c: char) -> (r: bool)
    ensures
        r == is_whitespace(c),
{
    let u: u32 = c as u32;
    (0x09 <= u && u <= 0x0D) || u == 0x20 || u == 0x85 || u == 0xA0 || u == 0x1680 || (0x2000 <= u
        && u <= 0x200A) || u == 0x2028 || u == 0x2029 || u == 0x202F || u == 0x205F || u == 0x3000
}

fn skip_whitespace_from(s: &Vec<char>, i: usize) -> (r: usize)
    requires
        i <= s.len(),
    ensures
        r == skip_whitespace(s@, i as int),
        i <= r <= s.len(),
{
    let mut j: usize = i;
    while j < s.len() && is_whitespace_char(s[j])
        invariant
            i <= j <= s.len(),
            skip_whitespace(s@, i as int) == skip_whitespace(s@, j as int),
        decreases s.len() - j,
    {
        j += 1;
    }
    j
}

fn token_end_from(s: &Vec<char>, i: usize) -> (r: usize)
    requires
        i <= s.len(),
    ensures
        r == token_end(s@, i as int),
        i <= r <= s.len(),
{
    let mut j: usize = i;
    while j < s.len() && !is_whitespace_char(s[j])
        invariant
            i <= j <= s.len(),
            token_end(s@, i as int) == token_end(s@, j as int),
        decreases s.len() - j,
    {
        j += 1;
    }
    j
}

/// The end of the field that starts at `i` in `s[start..limit]`, as an
/// index into `s`.
pub(crate) fn field_end_from(s: &Vec<char>, start: usize, limit: usize, i: usize) -> (r: usize)
    requires
        start <= i <= limit <= s.len(),
    ensures
        r - start == field_end(s@.subrange(start as int, limit as int), i - start),
        i <= r <= limit,
{
    let ghost v = s@.subrange(start as int, limit as int);
    let mut j: usize = i;
    while j < limit && s[j] != '.'
        invariant
            start <= i <= j <= limit <= s.len(),
            v == s@.subrange(start as int, limit as int),
            field_end(v, i - start) == field_end(v, j - start),
        decreases limit - j,
    {
        assert(v[j - start] == s@[j as int]);
        j += 1;
    }
    proof {
        if j < limit {
            assert(v[j - start] == s@[j as int]);
        }
    }
    j
}

/// The number that the digits `s[from..to]` denote, if they denote a `u32`.
pub(crate) fn digits_to_u32_range(s: &Vec<char>, from: usize, to: usize) -> (r: Option<u32>)
    requires
        from <= to <= s.len(),
    ensures
        r == digits_to_u32(s@.subrange(from as int, to as int)),
{
    let ghost d = s@.subrange(from as int, to as int);
    if from == to {
        return None;
    }
    let mut value: u32 = 0;
    let mut j: usize = from;
    assert(d.take(0) =~= Seq::<char>::empty());
    while j < to
        invariant
            from <= j <= to <= s.len(),
            d == s@.subrange(from as int, to as int),
            forall|i: int| 0 <= i < j - from ==> is_digit(#[trigger] d[i]),
            value == digits_value(d.take(j - from)),
        decreases to - j,
    {
        let c = s[j];
        assert(d[j - from] == c);
        if !(c >= '0' && c <= '9') {
            assert(!is_digit(d[j - from]));
            return None;
        }
        let digit: u32 = c as u32 - '0' as u32;
        proof {
            lemma_digits_value_step(d, j - from);
        }
        if value > (u32::MAX - digit) / 10 {
            proof {
                lemma_digits_value_monotone(d, j - from + 1, d.len() as int);
                assert(d.take(d.len() as int) =~= d);
            }
            return None;
        }
        value = value * 10 + digit;
        j += 1;
    }
    proof {
        assert(d.take(d.len() as int) =~= d);
    }
    Some(value)
}

/// The number that `s[from..to]` denotes, if it denotes a `u32`.
fn parse_u32_range(s: &Vec<char>, from: usize, to: usize) -> (r: Option<u32>)
    requires
        from <= to <= s.len(),
    ensures
        r == parse_u32(s@.subrange(from as int, to as int)),
{
    let ghost t = s@.subrange(from as int, to as int);
    let mut start: usize = from;
    if from < to && s[from] == '+' {
        start = from + 1;
    }
    proof {
        if from < to {
            assert(t[0] == s@[from as int]);
        }
        if start == from {
            assert(s@.subrange(start as int, to as int) =~= without_plus(t));
        } else {
            assert(s@.subrange(start as int, to as int) =~= t.subrange(1, t.len() as int));
        }
    }
    digits_to_u32_range(s, start, to)
}

fn is_python_word(s: &Vec<char>, from: usize, to: usize) -> (r: bool)
    requires
        from <= to <= s.len(),
    ensures
        r == (s@.subrange(from as int, to as int) == python_word()),
{
    let ghost t = s@.subrange(from as int, to as int);
    assert(python_word().len() == 6);
    if to - from != 6 {
        return false;
    }
    let r = s[from] == 'P' && s[from + 1] == 'y' && s[from + 2] == 't' && s[from + 3] == 'h' && s[from
        + 4] == 'o' && s[from + 5] == 'n';
    proof {
        assert(t[0] == s@[from as int]);
        assert(t[1] == s@[from + 1]);
        assert(t[2] == s@[from + 2]);
        assert(t[3] == s@[from + 3]);
        assert(t[4] == s@[from + 4]);
        assert(t[5] == s@[from + 5]);
        if r {
            assert(t =~= python_word());
        }
    }
    r
}

fn invalid_version(version_str: &str) -> (r: Result<
    PythonInterpreterVersion,
    ParsePythonInterpreterVersionError,
>)
    ensures
        r matches Err(ParsePythonInterpreterVersionError::InvalidVersion(t)) && t@
            == version_str@,
{
    Err(ParsePythonInterpreterVersionError::InvalidVersion(version_str.to_owned()))
}

impl PythonInterpreterVersion {
    /// Get the version of the python interpreter from the text that
    /// `python --version` prints, something along the lines of
    /// `Python 3.8.5`.
    pub fn from_python_output(version_str: &str) -> (r: Result<
        Self,
        ParsePythonInterpreterVersionError,
    >)
        ensures
            match python_version_of(version_str@) {
                Some((major, minor, patch)) => r == Ok::<Self, ParsePythonInterpreterVersionError>(
                    PythonInterpreterVersion { major, minor, patch },
                ),
                None => r matches Err(ParsePythonInterpreterVersionError::InvalidVersion(t)) && t@
                    == version_str@,
            },
    {
        let s = chars_of(version_str);
        let a0 = skip_whitespace_from(&s, 0);
        let b0 = token_end_from(&s, a0);
        let a1 = skip_whitespace_from(&s, b0);
        let b1 = token_end_from(&s, a1);
        if a0 >= s.len() || !is_python_word(&s, a0, b0) || a1 >= s.len() {
            return invalid_version(version_str);
        }
        let ghost v = s@.subrange(a1 as int, b1 as int);
        let e0 = field_end_from(&s, a1, b1, a1);
        if e0 >= b1 {
            return invalid_version(version_str);
        }
        let e1 = field_end_from(&s, a1, b1, e0 + 1);
        if e1 >= b1 {
            return invalid_version(version_str);
        }
        let e2 = field_end_from(&s, a1, b1, e1 + 1);
        proof {
            assert(v.subrange(0, e0 - a1) =~= s@.subrange(a1 as int, e0 as int));
            assert(v.subrange(e0 + 1 - a1, e1 - a1) =~= s@.subrange(e0 + 1, e1 as int));
            assert(v.subrange(e1 + 1 - a1, e2 - a1) =~= s@.subrange(e1 + 1, e2 as int));
        }
        let major = parse_u32_range(&s, a1, e0);
        let minor = parse_u32_range(&s, e0 + 1, e1);
        let patch = parse_u32_range(&s, e1 + 1, e2);
        match (major, minor, patch) {
            (Some(major), Some(minor), Some(patch)) => Ok(Self::new(major, minor, patch)),
            _ => invalid_version(version_str),
        }
    }

    pub fn new(major: u32, minor: u32, patch: u32) -> (r: Self)
        ensures
            r == (PythonInterpreterVersion { major, minor, patch }),
    {
        Self { major, minor, patch }
    }
}

} // verus!

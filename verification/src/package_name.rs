//! Names of packages and their normal form, the key of every lookup.

use vstd::prelude::*;
use crate::text::{chars_of, string_of};

verus! {

/// Whether `c` is one of the characters that separate the words of a name.
pub open spec fn is_separator(c: char) -> bool {
    c == '-' || c == '_' || c == '.'
}

/// `c` in lower case, where `c` is an ASCII letter.
pub open spec fn lower(c: char) -> char {
    if 'A' <= c <= 'Z' {
        ((c as u8 + 32) as u8) as char
    } else {
        c
    }
}

/// The normal form of a name: ASCII letters in lower case, and each run of
/// `-`, `_` and `.` replaced by a single `-`.
pub open spec fn normalized(s: Seq<char>) -> Seq<char>
    decreases s.len(),
{
    if s.len() == 0 {
        s
    } else if !is_separator(s.last()) {
        normalized(s.drop_last()).push(lower(s.last()))
    } else if s.len() >= 2 && is_separator(s[s.len() - 2]) {
        normalized(s.drop_last())
    } else {
        normalized(s.drop_last()).push('-')
    }
}

/// Whether a name is in normal form: no ASCII capital, no `_` or `.`, and no
/// two `-` in a row.
pub open spec fn is_normal(s: Seq<char>) -> bool {
    &&& forall|i: int| 0 <= i < s.len() ==> !('A' <= #[trigger] s[i] <= 'Z') && s[i] != '_' && s[i] != '.'
    &&& forall|i: int| 0 < i < s.len() ==> !(s[i - 1] == '-' && #[trigger] s[i] == '-')
}

/// What normalization yields is in normal form, and it ends in `-` exactly
/// when the name ends in a separator.
pub proof fn lemma_normalized_is_normal(s: Seq<char>)
    ensures
        is_normal(normalized(s)),
        normalized(s).len() <= s.len(),
        s.len() > 0 ==> normalized(s).len() > 0 && (normalized(s).last() == '-' <==> is_separator(
            s.last(),
        )),
    decreases s.len(),
{
    if s.len() > 0 {
        let rest = s.drop_last();
        lemma_normalized_is_normal(rest);
        if s.len() >= 2 {
            assert(rest.last() == s[s.len() - 2]);
        }
        let c = lower(s.last());
        assert(!('A' <= c <= 'Z')) by {
            if 'A' <= s.last() <= 'Z' {
                assert(c as u32 == s.last() as u32 + 32);
            }
        }
    }
}

/// A name in normal form is its own normal form.
pub proof fn lemma_normal_is_fixed(s: Seq<char>)
    requires
        is_normal(s),
    ensures
        normalized(s) == s,
    decreases s.len(),
{
    if s.len() > 0 {
        let rest = s.drop_last();
        assert(is_normal(rest)) by {
            assert forall|i: int| 0 <= i < rest.len() implies !('A' <= #[trigger] rest[i] <= 'Z')
                && rest[i] != '_' && rest[i] != '.' by {
                assert(rest[i] == s[i]);
            }
            assert forall|i: int| 0 < i < rest.len() implies !(rest[i - 1] == '-'
                && #[trigger] rest[i] == '-') by {
                assert(rest[i] == s[i]);
                assert(rest[i - 1] == s[i - 1]);
            }
        }
        lemma_normal_is_fixed(rest);
        let last = s.len() - 1;
        assert(s[last] == s.last());
        assert(rest.push(s.last()) =~= s);
        if s.len() >= 2 {
            assert(!(s[last - 1] == '-' && s[last] == '-'));
        }
    }
}

/// Normalization is idempotent.
pub proof fn lemma_normalize_idempotent(s: Seq<char>)
    ensures
        normalized(normalized(s)) == normalized(s),
{
    lemma_normalized_is_normal(s);
    lemma_normal_is_fixed(normalized(s));
}

fn lower_char(c: char) -> (r: char)
    ensures
        r == lower(c),
{
    if c >= 'A' && c <= 'Z' {
        let u: u8 = c as u8;
        (u + 32) as char
    } else {
        c
    }
}

fn is_separator_char(c: char) -> (r: bool)
    ensures
        r == is_separator(c),
{
    c == '-' || c == '_' || c == '.'
}

/// The normal form of the first `n` characters of `s`.
pub fn normalize_chars(s: &Vec<char>, n: usize) -> (r: Vec<char>)
    requires
        n <= s.len(),
    ensures
        r@ == normalized(s@.take(n as int)),
{
    let mut out: Vec<char> = Vec::new();
    let mut i: usize = 0;
    assert(s@.take(0) =~= Seq::<char>::empty());
    while i < n
        invariant
            i <= n <= s.len(),
            out@ == normalized(s@.take(i as int)),
        decreases n - i,
    {
        let c = s[i];
        proof {
            let t = s@.take(i + 1);
            assert(t.drop_last() =~= s@.take(i as int));
            assert(t.last() == c);
            if i > 0 {
                assert(t[t.len() - 2] == s@[i - 1]);
            }
        }
        if !is_separator_char(c) {
            out.push(lower_char(c));
        } else if !(i > 0 && is_separator_char(s[i - 1])) {
            out.push('-');
        }
        i += 1;
    }
    out
}

/// The normal form of `source`.
pub fn normalize(source: &str) -> (r: String)
    ensures
        r@ == normalized(source@),
{
    let s = chars_of(source);
    let out = normalize_chars(&s, s.len());
    proof {
        assert(s@.take(s.len() as int) =~= s@);
    }
    string_of(&out)
}

/// A package name as the user wrote it.
#[derive(Debug)]
pub struct PackageName {
    source: String,
}

/// A package name in normal form.
#[derive(Debug)]
pub struct NormalizedPackageName {
    name: String,
}

impl PackageName {
    /// The name as it was given.
    pub closed spec fn view(&self) -> Seq<char> {
        self.source@
    }

    pub fn new(source: &str) -> (r: Self)
        ensures
            r@ == source@,
    {
        PackageName { source: source.to_owned() }
    }

    pub fn as_str(&self) -> (r: &str)
        ensures
            r@ == self@,
    {
        self.source.as_str()
    }

    /// The normal form of this name.
    pub fn to_normalized(&self) -> (r: NormalizedPackageName)
        ensures
            r@ == normalized(self@),
    {
        NormalizedPackageName::new(self.source.as_str())
    }
}

impl NormalizedPackageName {
    /// The characters of the name.
    pub closed spec fn view(&self) -> Seq<char> {
        self.name@
    }

    /// The normal form of `source`.
    pub fn new(source: &str) -> (r: Self)
        ensures
            r@ == normalized(source@),
    {
        NormalizedPackageName { name: normalize(source) }
    }

    pub fn as_str(&self) -> (r: &str)
        ensures
            r@ == self@,
    {
        self.name.as_str()
    }

    /// Whether two names are the same.
    pub fn same(&self, other: &NormalizedPackageName) -> (r: bool)
        ensures
            r == (self@ == other@),
    {
        self.name == other.name
    }

    /// A copy of this name.
    pub fn duplicate(&self) -> (r: Self)
        ensures
            r@ == self@,
    {
        NormalizedPackageName { name: self.name.clone() }
    }
}

} // verus!

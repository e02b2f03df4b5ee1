//! Versions of packages and their order.
//!
//! A version is written in the scheme of PEP 440, as `1.2.3rc1` is, or it is
//! a legacy version, as `2011k` is: a text of letters, digits, `.`, `-`, `_`
//! and `+` that starts with a digit and is no version of that scheme. A
//! legacy version has no parts. It comes before every version of the scheme,
//! and legacy versions are in the order of their texts.

use vstd::prelude::*;
use crate::text::chars_of;

verus! {

/// The kind of a pre-release.
#[derive(Clone, Copy, Debug, PartialEq, Eq, Structural)]
pub enum PreReleaseKind {
    Alpha,
    Beta,
    Rc,
}

/// One segment of the local part of a version.
#[derive(Debug)]
pub enum LocalSegment {
    Text(String),
    Number(usize),
}

/// The mathematical value of a [`LocalSegment`].
pub enum LocalSegmentData {
    Text(Seq<char>),
    Number(usize),
}

/// The parts of a version of the scheme of PEP 440.
pub struct SchemeParts {
    pub epoch: usize,
    pub release: Seq<usize>,
    pub pre: Option<(PreReleaseKind, usize)>,
    pub post: Option<usize>,
    pub dev: Option<usize>,
    pub local: Seq<LocalSegmentData>,
}

/// The mathematical value of a [`Version`]: the text of a legacy version,
/// or the parts of a version of the scheme.
pub struct VersionData {
    pub legacy: Option<Seq<char>>,
    pub epoch: usize,
    pub release: Seq<usize>,
    pub pre: Option<(PreReleaseKind, usize)>,
    pub post: Option<usize>,
    pub dev: Option<usize>,
    pub local: Seq<LocalSegmentData>,
}

/// A version: the text it was read from, and its parts.
#[derive(Debug)]
pub struct Version {
    text: String,
    legacy: bool,
    epoch: usize,
    release: Vec<usize>,
    pre: Option<(PreReleaseKind, usize)>,
    post: Option<usize>,
    dev: Option<usize>,
    local: Vec<LocalSegment>,
}

/// The parts of the version of the scheme of PEP 440 that a text denotes,
/// where it denotes one.
pub uninterp spec fn version_of_text(text: Seq<char>) -> Option<SchemeParts>;

/// The version of the scheme with the given parts.
pub open spec fn of_scheme(parts: SchemeParts) -> VersionData {
    VersionData {
        legacy: None,
        epoch: parts.epoch,
        release: parts.release,
        pre: parts.pre,
        post: parts.post,
        dev: parts.dev,
        local: parts.local,
    }
}

/// The legacy version with the given text.
pub open spec fn legacy(text: Seq<char>) -> VersionData {
    VersionData {
        legacy: Some(text),
        epoch: 0,
        release: Seq::empty(),
        pre: None,
        post: None,
        dev: None,
        local: Seq::empty(),
    }
}

/// Whether `c` may stand in a legacy version: an ASCII letter or digit, or
/// one of `.`, `-`, `_` and `+`.
pub open spec fn is_legacy_char(c: char) -> bool {
    ||| '0' <= c <= '9'
    ||| 'a' <= c <= 'z'
    ||| 'A' <= c <= 'Z'
    ||| c == '.'
    ||| c == '-'
    ||| c == '_'
    ||| c == '+'
}

/// Whether a text can be a legacy version: it starts with a digit, and
/// every character of it may stand in one.
pub open spec fn is_legacy_text(text: Seq<char>) -> bool {
    &&& text.len() > 0
    &&& '0' <= text[0] <= '9'
    &&& forall|i: int| 0 <= i < text.len() ==> is_legacy_char(#[trigger] text[i])
}

/// The version that a text is read as: the version of the scheme that it
/// denotes; else the legacy version with that text, where it can be one.
pub open spec fn parsed_version(text: Seq<char>) -> Option<VersionData> {
    match version_of_text(text) {
        Some(parts) => Some(of_scheme(parts)),
        None => if is_legacy_text(text) {
            Some(legacy(text))
        } else {
            None
        },
    }
}

impl LocalSegment {
    pub open spec fn view(&self) -> LocalSegmentData {
        match self {
            LocalSegment::Text(s) => LocalSegmentData::Text(s@),
            LocalSegment::Number(n) => LocalSegmentData::Number(*n),
        }
    }
}

/// The release without the zeros at its end.
pub open spec fn trimmed(release: Seq<usize>) -> Seq<usize>
    decreases release.len(),
{
    if release.len() > 0 && release.last() == 0 {
        trimmed(release.drop_last())
    } else {
        release
    }
}

/// The key of a release: each number of the trimmed release plus one, then 0.
pub open spec fn release_key(release: Seq<usize>) -> Seq<int> {
    Seq::new(trimmed(release).len(), |i: int| trimmed(release)[i] + 1).push(0)
}

/// The key of the pre-release part. A development release of a final
/// release comes before every pre-release; a final release after them.
pub open spec fn pre_key(v: VersionData) -> Seq<int> {
    match v.pre {
        Some((PreReleaseKind::Alpha, n)) => seq![1, n as int],
        Some((PreReleaseKind::Beta, n)) => seq![2, n as int],
        Some((PreReleaseKind::Rc, n)) => seq![3, n as int],
        None => if v.post is None && v.dev is Some {
            seq![0, 0]
        } else {
            seq![4, 0]
        },
    }
}

/// The key of the post-release part: none comes before any.
pub open spec fn post_key(v: VersionData) -> int {
    match v.post {
        Some(n) => n + 1,
        None => 0,
    }
}

/// The key of the development part: none comes after any.
pub open spec fn dev_key(v: VersionData) -> int {
    match v.dev {
        Some(n) => n as int,
        None => 0x1_0000_0000_0000_0000,
    }
}

/// The key of a text: each character's code plus one, then 0.
pub open spec fn text_key(s: Seq<char>) -> Seq<int> {
    Seq::new(s.len(), |i: int| s[i] as u32 + 1).push(0)
}

/// The key of a local segment: a text comes before a number.
pub open spec fn segment_key(segment: LocalSegmentData) -> Seq<int> {
    match segment {
        LocalSegmentData::Text(s) => seq![1int] + text_key(s),
        LocalSegmentData::Number(n) => seq![2int, n as int],
    }
}

/// The keys of local segments, one after the other.
pub open spec fn local_key(local: Seq<LocalSegmentData>) -> Seq<int>
    decreases local.len(),
{
    if local.len() == 0 {
        Seq::empty()
    } else {
        local_key(local.drop_last()) + segment_key(local.last())
    }
}

/// The key by which versions are ordered: 0 and the key of the text for a
/// legacy version, 1 and the key of the parts for a version of the scheme.
/// So every legacy version comes before every version of the scheme, and
/// legacy versions are in the order of their texts.
pub open spec fn sort_key(v: VersionData) -> Seq<int> {
    match v.legacy {
        Some(text) => seq![0int] + text_key(text),
        None => seq![1int] + scheme_key(v),
    }
}

/// The key of the parts of a version of the scheme: epoch, release,
/// pre-release, post-release, development release and local part, each
/// written so that the order of keys, number by number, is the order of
/// versions.
pub open spec fn scheme_key(v: VersionData) -> Seq<int> {
    seq![v.epoch as int] + release_key(v.release) + pre_key(v) + seq![post_key(v), dev_key(v)]
        + local_key(v.local).push(0)
}

/// Whether `a` comes before `b` number by number: at the first place where
/// they differ `a` is smaller, or `a` ends there and `b` goes on.
pub open spec fn lex_less(a: Seq<int>, b: Seq<int>) -> bool {
    exists|k: int| lex_less_at(a, b, k)
}

/// Whether `a` and `b` agree before place `k` and `a` is smaller there.
pub open spec fn lex_less_at(a: Seq<int>, b: Seq<int>, k: int) -> bool {
    &&& 0 <= k <= a.len()
    &&& k < b.len()
    &&& a.take(k) == b.take(k)
    &&& k < a.len() ==> a[k] < b[k]
}

/// Whether version `a` is lower than version `b`.
pub open spec fn precedes(a: VersionData, b: VersionData) -> bool {
    lex_less(sort_key(a), sort_key(b))
}

/// Whether two versions are the same in the order, as `1.0` and `1.0.0` are.
pub open spec fn same_rank(a: VersionData, b: VersionData) -> bool {
    sort_key(a) == sort_key(b)
}

/// No sequence comes before itself, and of two at most one comes before the
/// other.
pub proof fn lemma_lex_less_asymmetric(a: Seq<int>, b: Seq<int>)
    requires
        lex_less(a, b),
    ensures
        !lex_less(b, a),
        a != b,
{
    let k = choose|k: int| lex_less_at(a, b, k);
    if lex_less(b, a) {
        let j = choose|j: int| lex_less_at(b, a, j);
        if j < k {
            assert(a.take(k)[j] == b.take(k)[j]);
        } else if k < j {
            assert(b.take(j)[k] == a.take(j)[k]);
        }
    }
}

/// The order of sequences is transitive.
pub proof fn lemma_lex_less_transitive(a: Seq<int>, b: Seq<int>, c: Seq<int>)
    requires
        lex_less(a, b),
        lex_less(b, c),
    ensures
        lex_less(a, c),
{
    let k = choose|k: int| lex_less_at(a, b, k);
    let j = choose|j: int| lex_less_at(b, c, j);
    let m = if k <= j {
        k
    } else {
        j
    };
    assert(a.take(m) =~= c.take(m)) by {
        assert forall|i: int| 0 <= i < m implies a[i] == c[i] by {
            assert(a.take(k)[i] == b.take(k)[i]);
            assert(b.take(j)[i] == c.take(j)[i]);
        }
    }
    if k < j {
        assert(b.take(j)[k] == c.take(j)[k]);
    } else if j < k {
        assert(a.take(k)[j] == b.take(k)[j]);
    }
    assert(lex_less_at(a, c, m));
}

proof fn lemma_lex_total_from(a: Seq<int>, b: Seq<int>, i: int)
    requires
        0 <= i <= a.len(),
        i <= b.len(),
        a.take(i) == b.take(i),
        a != b,
    ensures
        lex_less(a, b) || lex_less(b, a),
    decreases a.len() - i,
{
    if i == a.len() {
        if i == b.len() {
            assert(a.take(i) =~= a);
            assert(b.take(i) =~= b);
        } else {
            assert(lex_less_at(a, b, i));
        }
    } else if i == b.len() {
        assert(lex_less_at(b, a, i));
    } else if a[i] < b[i] {
        assert(lex_less_at(a, b, i));
    } else if b[i] < a[i] {
        assert(lex_less_at(b, a, i));
    } else {
        assert(a.take(i + 1) =~= a.take(i).push(a[i]));
        assert(b.take(i + 1) =~= b.take(i).push(b[i]));
        lemma_lex_total_from(a, b, i + 1);
    }
}

/// Of two different sequences one comes before the other.
pub proof fn lemma_lex_less_total(a: Seq<int>, b: Seq<int>)
    requires
        a != b,
    ensures
        lex_less(a, b) || lex_less(b, a),
{
    assert(a.take(0) =~= b.take(0));
    lemma_lex_total_from(a, b, 0);
}

/// No version is lower than itself, and of two versions at most one is lower
/// than the other.
pub proof fn lemma_precedes_asymmetric(a: VersionData, b: VersionData)
    requires
        precedes(a, b),
    ensures
        !precedes(b, a),
        !same_rank(a, b),
{
    lemma_lex_less_asymmetric(sort_key(a), sort_key(b));
}

/// The order of versions is transitive.
pub proof fn lemma_precedes_transitive(a: VersionData, b: VersionData, c: VersionData)
    requires
        precedes(a, b),
        precedes(b, c),
    ensures
        precedes(a, c),
{
    lemma_lex_less_transitive(sort_key(a), sort_key(b), sort_key(c));
}

/// Of two versions that are not the same in the order, one is lower than the
/// other.
pub proof fn lemma_precedes_total(a: VersionData, b: VersionData)
    requires
        !same_rank(a, b),
    ensures
        precedes(a, b) || precedes(b, a),
{
    lemma_lex_less_total(sort_key(a), sort_key(b));
}

/// Every legacy version is lower than every version of the scheme.
pub proof fn lemma_legacy_precedes_scheme(a: VersionData, b: VersionData)
    requires
        a.legacy is Some,
        b.legacy is None,
    ensures
        precedes(a, b),
{
    let x = sort_key(a);
    let y = sort_key(b);
    assert(x[0] == 0);
    assert(y[0] == 1);
    assert(x.take(0) =~= y.take(0));
    assert(lex_less_at(x, y, 0));
}

/// The numbers of a key as mathematical integers.
pub open spec fn ints(key: Seq<u128>) -> Seq<int> {
    Seq::new(key.len(), |i: int| key[i] as int)
}

fn lex_less_exec(a: &Vec<u128>, b: &Vec<u128>) -> (r: bool)
    ensures
        r == lex_less(ints(a@), ints(b@)),
{
    let ghost x = ints(a@);
    let ghost y = ints(b@);
    let mut i: usize = 0;
    while i < a.len() && i < b.len() && a[i] == b[i]
        invariant
            i <= a.len(),
            i <= b.len(),
            x == ints(a@),
            y == ints(b@),
            x.take(i as int) == y.take(i as int),
        decreases a.len() - i,
    {
        assert(x.take(i + 1) =~= x.take(i as int).push(x[i as int]));
        assert(y.take(i + 1) =~= y.take(i as int).push(y[i as int]));
        i += 1;
    }
    let r = i < b.len() && (i == a.len() || a[i] < b[i]);
    proof {
        if r {
            assert(lex_less_at(x, y, i as int));
        } else if lex_less(x, y) {
            let k = choose|k: int| lex_less_at(x, y, k);
            if k < i {
                assert(x.take(i as int)[k] == y.take(i as int)[k]);
            } else if k > i && i < x.len() && i < y.len() {
                assert(x.take(k)[i as int] == y.take(k)[i as int]);
            }
        }
    }
    r
}

fn push_key(key: &mut Vec<u128>, x: u128)
    ensures
        ints(final(key)@) == ints(old(key)@).push(x as int),
{
    key.push(x);
    assert(ints(key@) =~= ints(old(key)@).push(x as int));
}

fn is_legacy_chars(s: &Vec<char>) -> (r: bool)
    ensures
        r == is_legacy_text(s@),
{
    if s.len() == 0 || !(s[0] >= '0' && s[0] <= '9') {
        return false;
    }
    let mut i: usize = 0;
    while i < s.len()
        invariant
            i <= s.len(),
            forall|j: int| 0 <= j < i ==> is_legacy_char(#[trigger] s@[j]),
        decreases s.len() - i,
    {
        let c = s[i];
        let fits = (c >= '0' && c <= '9') || (c >= 'a' && c <= 'z') || (c >= 'A' && c <= 'Z') || c
            == '.' || c == '-' || c == '_' || c == '+';
        if !fits {
            assert(!is_legacy_char(s@[i as int]));
            return false;
        }
        i += 1;
    }
    true
}

impl Version {
    /// The parts of the version.
    pub closed spec fn view(&self) -> VersionData {
        VersionData {
            legacy: if self.legacy {
                Some(self.text@)
            } else {
                None
            },
            epoch: self.epoch,
            release: self.release@,
            pre: self.pre,
            post: self.post,
            dev: self.dev,
            local: Seq::new(self.local@.len(), |i: int| self.local@[i]@),
        }
    }

    /// The text that the version was read from.
    pub closed spec fn text(&self) -> Seq<char> {
        self.text@
    }

    /// Whether the parts are those that the text denotes. Every version
    /// that [`Version::parse`] gives is of this kind.
    pub open spec fn wf(&self) -> bool {
        parsed_version(self.text()) == Some(self@)
    }

    /// Whether the version is a pre-release or a development release.
    pub open spec fn is_unstable(&self) -> bool {
        self@.pre is Some || self@.dev is Some
    }

    /// Reads a version from its text: a version of the scheme of PEP 440,
    /// or else a legacy version.
    pub fn parse(text: &str) -> (r: Option<Version>)
        ensures
            match parsed_version(text@) {
                Some(version) => r matches Some(v) && v@ == version && v.text() == text@ && v.wf(),
                None => r is None,
            },
    {
        match parse_version_text(text) {
            Some(v) => Some(v),
            None => {
                let chars = chars_of(text);
                if is_legacy_chars(&chars) {
                    let v = Version {
                        text: text.to_owned(),
                        legacy: true,
                        epoch: 0,
                        release: Vec::new(),
                        pre: None,
                        post: None,
                        dev: None,
                        local: Vec::new(),
                    };
                    assert(v@.local =~= Seq::<LocalSegmentData>::empty());
                    assert(v@.release =~= Seq::<usize>::empty());
                    Some(v)
                } else {
                    None
                }
            },
        }
    }

    /// Whether the version is a legacy version.
    pub fn is_legacy(&self) -> (r: bool)
        ensures
            r == self@.legacy is Some,
    {
        self.legacy
    }

    pub fn as_str(&self) -> (r: &str)
        ensures
            r@ == self.text(),
    {
        self.text.as_str()
    }

    pub fn has_pre(&self) -> (r: bool)
        ensures
            r == self@.pre is Some,
    {
        self.pre.is_some()
    }

    pub fn has_dev(&self) -> (r: bool)
        ensures
            r == self@.dev is Some,
    {
        self.dev.is_some()
    }

    /// A copy of this version.
    pub fn duplicate(&self) -> (r: Self)
        ensures
            r@ == self@,
            r.text() == self.text(),
    {
        let mut local: Vec<LocalSegment> = Vec::new();
        let mut i: usize = 0;
        while i < self.local.len()
            invariant
                i <= self.local.len(),
                local@.len() == i,
                forall|j: int| 0 <= j < i ==> local@[j]@ == self.local@[j]@,
            decreases self.local.len() - i,
        {
            let segment = match &self.local[i] {
                LocalSegment::Text(s) => LocalSegment::Text(s.clone()),
                LocalSegment::Number(n) => LocalSegment::Number(*n),
            };
            local.push(segment);
            i += 1;
        }
        let r = Version {
            text: self.text.clone(),
            legacy: self.legacy,
            epoch: self.epoch,
            release: self.release.clone(),
            pre: self.pre,
            post: self.post,
            dev: self.dev,
            local,
        };
        assert(r@.local =~= self@.local);
        r
    }

    /// The key by which this version is ordered.
    fn key(&self) -> (r: Vec<u128>)
        ensures
            ints(r@) == sort_key(self@),
    {
        let mut key: Vec<u128> = Vec::new();
        assert(ints(key@) =~= Seq::<int>::empty());
        if self.legacy {
            let cs = chars_of(self.text.as_str());
            push_key(&mut key, 0);
            let mut c: usize = 0;
            assert(ints(key@) =~= seq![0int] + Seq::new(0, |j: int| cs@[j] as u32 + 1));
            while c < cs.len()
                invariant
                    c <= cs.len(),
                    ints(key@) == seq![0int] + Seq::new(c as nat, |j: int| cs@[j] as u32 + 1),
                decreases cs.len() - c,
            {
                let ghost inner = ints(key@);
                let ch: char = cs[c];
                let code: u32 = ch as u32;
                push_key(&mut key, code as u128 + 1);
                assert(inner.push(cs@[c as int] as u32 + 1) =~= seq![0int] + Seq::new(
                    (c + 1) as nat,
                    |j: int| cs@[j] as u32 + 1,
                ));
                c += 1;
            }
            let ghost body = ints(key@);
            push_key(&mut key, 0);
            assert(body.push(0) =~= seq![0int] + text_key(cs@));
        } else {
            let rest = self.parts_key();
            push_key(&mut key, 1);
            let mut i: usize = 0;
            assert(ints(key@) =~= seq![1int] + ints(rest@).take(0));
            while i < rest.len()
                invariant
                    i <= rest.len(),
                    ints(key@) == seq![1int] + ints(rest@).take(i as int),
                decreases rest.len() - i,
            {
                let ghost before = ints(key@);
                push_key(&mut key, rest[i]);
                assert(before.push(rest@[i as int] as int) =~= seq![1int] + ints(rest@).take(i + 1));
                i += 1;
            }
            assert(ints(rest@).take(rest.len() as int) =~= ints(rest@));
        }
        key
    }

    /// The key of the parts of this version.
    fn parts_key(&self) -> (r: Vec<u128>)
        ensures
            ints(r@) == scheme_key(self@),
    {
        let ghost v = self@;
        let mut key: Vec<u128> = Vec::new();
        assert(ints(key@) =~= Seq::<int>::empty());
        push_key(&mut key, self.epoch as u128);
        let mut n: usize = self.release.len();
        proof {
            assert(self.release@.take(n as int) =~= self.release@);
        }
        while n > 0 && self.release[n - 1] == 0
            invariant
                n <= self.release.len(),
                trimmed(self.release@) == trimmed(self.release@.take(n as int)),
            decreases n,
        {
            proof {
                assert(self.release@.take(n as int).drop_last() =~= self.release@.take(n - 1));
            }
            n -= 1;
        }
        let ghost t = trimmed(self.release@);
        assert(t == self.release@.take(n as int));
        let mut i: usize = 0;
        assert(ints(key@) =~= seq![self.epoch as int] + Seq::new(0, |j: int| t[j] + 1));
        while i < n
            invariant
                i <= n <= self.release.len(),
                t == self.release@.take(n as int),
                ints(key@) == seq![self.epoch as int] + Seq::new(i as nat, |j: int| t[j] + 1),
            decreases n - i,
        {
            let ghost before = ints(key@);
            push_key(&mut key, self.release[i] as u128 + 1);
            assert(before.push(t[i as int] + 1) =~= seq![self.epoch as int] + Seq::new(
                (i + 1) as nat,
                |j: int| t[j] + 1,
            ));
            i += 1;
        }
        push_key(&mut key, 0);
        assert(ints(key@) =~= seq![v.epoch as int] + release_key(v.release));
        let ghost after_release = ints(key@);
        match self.pre {
            Some((PreReleaseKind::Alpha, m)) => {
                push_key(&mut key, 1);
                push_key(&mut key, m as u128);
            },
            Some((PreReleaseKind::Beta, m)) => {
                push_key(&mut key, 2);
                push_key(&mut key, m as u128);
            },
            Some((PreReleaseKind::Rc, m)) => {
                push_key(&mut key, 3);
                push_key(&mut key, m as u128);
            },
            None => {
                if self.post.is_none() && self.dev.is_some() {
                    push_key(&mut key, 0);
                } else {
                    push_key(&mut key, 4);
                }
                push_key(&mut key, 0);
            },
        }
        assert(ints(key@) =~= after_release + pre_key(v));
        match self.post {
            Some(m) => push_key(&mut key, m as u128 + 1),
            None => push_key(&mut key, 0),
        }
        match self.dev {
            Some(m) => push_key(&mut key, m as u128),
            None => push_key(&mut key, 0x1_0000_0000_0000_0000),
        }
        let ghost head = seq![v.epoch as int] + release_key(v.release) + pre_key(v) + seq![
            post_key(v),
            dev_key(v),
        ];
        assert(ints(key@) =~= head);
        let mut s: usize = 0;
        assert(v.local.take(0) =~= Seq::<LocalSegmentData>::empty());
        assert(ints(key@) =~= head + local_key(v.local.take(0)));
        while s < self.local.len()
            invariant
                s <= self.local.len(),
                v == self@,
                ints(key@) == head + local_key(v.local.take(s as int)),
            decreases self.local.len() - s,
        {
            let ghost before = ints(key@);
            proof {
                assert(v.local.take(s + 1).drop_last() =~= v.local.take(s as int));
                assert(v.local.take(s + 1).last() == self.local@[s as int]@);
            }
            match &self.local[s] {
                LocalSegment::Number(m) => {
                    push_key(&mut key, 2);
                    push_key(&mut key, *m as u128);
                    assert(ints(key@) =~= before + seq![2int, *m as int]);
                },
                LocalSegment::Text(text) => {
                    let cs = chars_of(text.as_str());
                    push_key(&mut key, 1);
                    let mut c: usize = 0;
                    assert(ints(key@) =~= before + seq![1int] + Seq::new(
                        0,
                        |j: int| cs@[j] as u32 + 1,
                    ));
                    while c < cs.len()
                        invariant
                            c <= cs.len(),
                            ints(key@) == before + seq![1int] + Seq::new(
                                c as nat,
                                |j: int| cs@[j] as u32 + 1,
                            ),
                        decreases cs.len() - c,
                    {
                        let ghost inner = ints(key@);
                        let ch: char = cs[c];
                        let code: u32 = ch as u32;
                        push_key(&mut key, code as u128 + 1);
                        assert(inner.push(cs@[c as int] as u32 + 1) =~= before + seq![1int]
                            + Seq::new((c + 1) as nat, |j: int| cs@[j] as u32 + 1));
                        c += 1;
                    }
                    push_key(&mut key, 0);
                    assert(ints(key@) =~= before + (seq![1int] + text_key(cs@)));
                },
            }
            assert(ints(key@) =~= head + local_key(v.local.take(s + 1)));
            s += 1;
        }
        proof {
            assert(v.local.take(self.local.len() as int) =~= v.local);
        }
        let ghost body = ints(key@);
        push_key(&mut key, 0);
        assert(body.push(0) =~= scheme_key(v));
        key
    }

    /// Whether this version and `other` are the same in the order.
    pub fn same_rank_as(&self, other: &Version) -> (r: bool)
        ensures
            r == same_rank(self@, other@),
    {
        let a = self.key();
        let b = other.key();
        let less = lex_less_exec(&a, &b);
        let more = lex_less_exec(&b, &a);
        proof {
            if less {
                lemma_lex_less_asymmetric(ints(a@), ints(b@));
            } else if more {
                lemma_lex_less_asymmetric(ints(b@), ints(a@));
            } else if ints(a@) != ints(b@) {
                lemma_lex_less_total(ints(a@), ints(b@));
            }
        }
        !less && !more
    }

    /// Whether this version is lower than `other`.
    pub fn is_lower_than(&self, other: &Version) -> (r: bool)
        ensures
            r == precedes(self@, other@),
    {
        let a = self.key();
        let b = other.key();
        lex_less_exec(&a, &b)
    }
}

/// `pep440_rs::Version::from_str`: the version of the scheme of PEP 440 that
/// `text` denotes, part by part, where `text` is one; the local part is
/// empty where the text has none.
#[verifier::external_body]
fn parse_version_text(text: &str) -> (r: Option<Version>)
    ensures
        match version_of_text(text@) {
            Some(parts) => r matches Some(v) && v@ == of_scheme(parts) && v.text() == text@,
            None => r is None,
        },
{
    let v = text.parse::<pep440_rs::Version>().ok()?;
    let pre = v.pre.map(|(kind, n)| match kind {
        pep440_rs::PreRelease::Alpha => (PreReleaseKind::Alpha, n),
        pep440_rs::PreRelease::Beta => (PreReleaseKind::Beta, n),
        pep440_rs::PreRelease::Rc => (PreReleaseKind::Rc, n),
    });
    let local = v.local.unwrap_or_default().into_iter().map(|segment| match segment {
        pep440_rs::LocalSegment::String(s) => LocalSegment::Text(s),
        pep440_rs::LocalSegment::Number(n) => LocalSegment::Number(n),
    }).collect();
    Some(Version { text: text.to_owned(), legacy: false, epoch: v.epoch, release: v.release, pre, post: v.post, dev: v.dev, local })
}

} // verus!

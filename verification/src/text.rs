//! Conversions between strings and sequences of characters.

use vstd::prelude::*;

verus! {

/// The characters of `s`, in order.
pub fn chars_of(s: &str) -> (r: Vec<char>)
    ensures
        r@ == s@,
{
    let mut out: Vec<char> = Vec::new();
    for c in it: s.chars()
        invariant
            it.seq() == s@,
            out@ == s@.take(it.index() as int),
    {
        out.push(c);
    }
    out
}

/// `String::from_iter` over characters: the string made of the characters of
/// `cs`, in order.
#[verifier::external_body]
pub(crate) fn string_of(cs: &Vec<char>) -> (s: String)
    ensures
        s@ == cs@,
{
    cs.iter().collect()
}


/// The texts of a sequence of strings.
pub open spec fn texts(v: Seq<String>) -> Seq<Seq<char>> {
    Seq::new(v.len(), |i: int| v[i]@)
}

/// Whether two lists of strings hold the same texts in the same order.
pub fn same_texts(a: &Vec<String>, b: &Vec<String>) -> (r: bool)
    ensures
        r == (texts(a@) == texts(b@)),
{
    if a.len() != b.len() {
        assert(texts(a@).len() != texts(b@).len());
        return false;
    }
    let mut i: usize = 0;
    while i < a.len()
        invariant
            i <= a.len(),
            a.len() == b.len(),
            forall|j: int| 0 <= j < i ==> a@[j]@ == b@[j]@,
        decreases a.len() - i,
    {
        if a[i] != b[i] {
            assert(texts(a@)[i as int] != texts(b@)[i as int]);
            return false;
        }
        i += 1;
    }
    assert(texts(a@) =~= texts(b@));
    true
}

/// A copy of a list of strings.
pub fn duplicate_texts(a: &Vec<String>) -> (r: Vec<String>)
    ensures
        texts(r@) == texts(a@),
{
    let mut out: Vec<String> = Vec::new();
    let mut i: usize = 0;
    while i < a.len()
        invariant
            i <= a.len(),
            out@.len() == i,
            forall|j: int| 0 <= j < i ==> out@[j]@ == a@[j]@,
        decreases a.len() - i,
    {
        out.push(a[i].clone());
        i += 1;
    }
    assert(texts(out@) =~= texts(a@));
    out
}


/// `String::from_utf8`: the text that `bytes` encode in UTF-8, where they
/// encode one.
#[verifier::external_body]
pub(crate) fn string_from_utf8(bytes: &Vec<u8>) -> (r: Option<String>)
    ensures
        r matches Some(s) ==> vstd::utf8::valid_utf8(bytes@) && s@ == vstd::utf8::decode_utf8(
            bytes@,
        ),
        r is None ==> !vstd::utf8::valid_utf8(bytes@),
{
    String::from_utf8(bytes.clone()).ok()
}

/// The string made of the characters `s[from..to]`.
pub fn string_of_range(s: &Vec<char>, from: usize, to: usize) -> (r: String)
    requires
        from <= to <= s.len(),
    ensures
        r@ == s@.subrange(from as int, to as int),
{
    let mut out: Vec<char> = Vec::new();
    let mut i: usize = from;
    while i < to
        invariant
            from <= i <= to <= s.len(),
            out@ == s@.subrange(from as int, i as int),
        decreases to - i,
    {
        out.push(s[i]);
        assert(out@ =~= s@.subrange(from as int, i + 1));
        i += 1;
    }
    string_of(&out)
}

/// Whether two lists of characters are the same.
pub fn same_chars(a: &Vec<char>, b: &Vec<char>) -> (r: bool)
    ensures
        r == (a@ == b@),
{
    if a.len() != b.len() {
        return false;
    }
    let mut i: usize = 0;
    while i < a.len()
        invariant
            i <= a.len(),
            a.len() == b.len(),
            forall|j: int| 0 <= j < i ==> a@[j] == b@[j],
        decreases a.len() - i,
    {
        if a[i] != b[i] {
            return false;
        }
        i += 1;
    }
    assert(a@ =~= b@);
    true
}

/// A copy of the characters `s[from..to]`.
pub fn copy_range(s: &Vec<char>, from: usize, to: usize) -> (r: Vec<char>)
    requires
        from <= to <= s.len(),
    ensures
        r@ == s@.subrange(from as int, to as int),
{
    let mut out: Vec<char> = Vec::new();
    let mut i: usize = from;
    while i < to
        invariant
            from <= i <= to <= s.len(),
            out@ == s@.subrange(from as int, i as int),
        decreases to - i,
    {
        out.push(s[i]);
        assert(out@ =~= s@.subrange(from as int, i + 1));
        i += 1;
    }
    out
}

/// How many times `c` stands in `s`.
pub open spec fn count_of(s: Seq<char>, c: char) -> nat
    decreases s.len(),
{
    if s.len() == 0 {
        0
    } else if s.last() == c {
        count_of(s.drop_last(), c) + 1
    } else {
        count_of(s.drop_last(), c)
    }
}

/// How many times `c` stands in `s`.
pub fn count_char(s: &str, c: char) -> (r: usize)
    ensures
        r == count_of(s@, c),
{
    let chars = chars_of(s);
    let mut n: usize = 0;
    let mut i: usize = 0;
    assert(chars@.take(0) =~= Seq::<char>::empty());
    while i < chars.len()
        invariant
            i <= chars.len(),
            n <= i,
            n == count_of(chars@.take(i as int), c),
        decreases chars.len() - i,
    {
        proof {
            assert(chars@.take(i + 1).drop_last() =~= chars@.take(i as int));
            assert(chars@.take(i + 1).last() == chars@[i as int]);
        }
        if chars[i] == c {
            n += 1;
        }
        i += 1;
    }
    proof {
        assert(chars@.take(chars.len() as int) =~= chars@);
    }
    n
}

/// Whether `s` holds no `sep`.
pub open spec fn lacks(s: Seq<char>, sep: char) -> bool {
    forall|i: int| 0 <= i < s.len() ==> s[i] != sep
}

/// The number of characters from place `i` to the first `sep`.
pub open spec fn part_len(s: Seq<char>, sep: char, i: int) -> nat
    decreases s.len() - i,
{
    if 0 <= i < s.len() && s[i] != sep {
        1 + part_len(s, sep, i + 1)
    } else {
        0
    }
}

/// The parts of `s` between its `sep`: one more than it holds `sep`.
pub open spec fn parts(s: Seq<char>, sep: char) -> Seq<Seq<char>>
    decreases s.len(),
{
    if part_len(s, sep, 0) >= s.len() {
        seq![s]
    } else {
        seq![s.take(part_len(s, sep, 0) as int)] + parts(s.skip(part_len(s, sep, 0) as int + 1), sep)
    }
}

proof fn lemma_part_len(a: Seq<char>, sep: char, b: Seq<char>, i: int)
    requires
        lacks(a, sep),
        0 <= i <= a.len(),
        b.len() == 0 || b[0] == sep,
    ensures
        part_len(a + b, sep, i) == a.len() - i,
    decreases a.len() - i,
{
    if i < a.len() {
        assert((a + b)[i] == a[i]);
        lemma_part_len(a, sep, b, i + 1);
    } else if b.len() > 0 {
        assert((a + b)[i] == b[0]);
    }
}

/// A text without `sep` is its own one part.
pub proof fn lemma_parts_one(a: Seq<char>, sep: char)
    requires
        lacks(a, sep),
    ensures
        parts(a, sep) == seq![a],
{
    lemma_part_len(a, sep, Seq::empty(), 0);
    assert(a + Seq::<char>::empty() =~= a);
}

/// The parts of a text without `sep`, a `sep` and a rest are the text and
/// the parts of the rest.
pub proof fn lemma_parts_cons(a: Seq<char>, sep: char, b: Seq<char>)
    requires
        lacks(a, sep),
    ensures
        parts(a + seq![sep] + b, sep) == seq![a] + parts(b, sep),
{
    let tail = seq![sep] + b;
    let s = a + tail;
    assert(a + seq![sep] + b =~= s);
    lemma_part_len(a, sep, tail, 0);
    assert(s.take(a.len() as int) =~= a);
    assert(s.skip(a.len() as int + 1) =~= b);
}

/// The parts of `s[from..to]` between its `sep`, each as a range of `s`.
pub fn split_on(s: &Vec<char>, from: usize, to: usize, sep: char) -> (r: Vec<(usize, usize)>)
    requires
        from <= to <= s.len(),
    ensures
        r@.len() == parts(s@.subrange(from as int, to as int), sep).len(),
        forall|k: int|
            0 <= k < r@.len() ==> from <= (#[trigger] r@[k]).0 <= r@[k].1 <= to && s@.subrange(
                r@[k].0 as int,
                r@[k].1 as int,
            ) == parts(s@.subrange(from as int, to as int), sep)[k],
{
    let ghost whole = parts(s@.subrange(from as int, to as int), sep);
    let mut out: Vec<(usize, usize)> = Vec::new();
    let mut start: usize = from;
    loop
        invariant_except_break
            whole.len() == out@.len() + parts(s@.subrange(start as int, to as int), sep).len(),
            forall|k: int|
                0 <= k < out@.len() ==> from <= (#[trigger] out@[k]).0 <= out@[k].1 <= to && s@.subrange(
                    out@[k].0 as int,
                    out@[k].1 as int,
                ) == whole[k],
            forall|k: int|
                0 <= k < parts(s@.subrange(start as int, to as int), sep).len() ==> whole[out@.len()
                    + k] == #[trigger] parts(s@.subrange(start as int, to as int), sep)[k],
        invariant
            from <= start <= to <= s.len(),
            whole == parts(s@.subrange(from as int, to as int), sep),
        ensures
            out@.len() == whole.len(),
            forall|k: int|
                0 <= k < out@.len() ==> from <= (#[trigger] out@[k]).0 <= out@[k].1 <= to && s@.subrange(
                    out@[k].0 as int,
                    out@[k].1 as int,
                ) == whole[k],
        decreases to - start,
    {
        let ghost cur = s@.subrange(start as int, to as int);
        let mut e: usize = start;
        while e < to && s[e] != sep
            invariant
                start <= e <= to <= s.len(),
                cur == s@.subrange(start as int, to as int),
                part_len(cur, sep, 0) == (e - start) + part_len(cur, sep, e - start),
            decreases to - e,
        {
            assert(cur[e - start] == s@[e as int]);
            e += 1;
        }
        proof {
            if e < to {
                assert(cur[e - start] == s@[e as int]);
            }
            assert(part_len(cur, sep, 0) == e - start);
            assert(cur.take(e - start) =~= s@.subrange(start as int, e as int));
            if e < to {
                assert(cur.skip(e - start + 1) =~= s@.subrange(e + 1, to as int));
            } else {
                assert(cur.take(e - start) =~= cur);
            }
        }
        let ghost rest = parts(cur, sep);
        assert(rest[0] == s@.subrange(start as int, e as int));
        assert(whole[out@.len() as int] == rest[0]);
        out.push((start, e));
        if e >= to {
            break ;
        }
        proof {
            let next = parts(s@.subrange(e + 1, to as int), sep);
            assert(rest =~= seq![cur.take(e - start)] + next);
            assert forall|k: int| 0 <= k < next.len() implies whole[out@.len() + k]
                == #[trigger] next[k] by {
                assert(rest[k + 1] == next[k]);
            }
        }
        start = e + 1;
    }
    out
}

} // verus!

//! Paths of the files of an archive, component by component.

use vstd::prelude::*;
use crate::text::{chars_of, copy_range, parts, same_chars, split_on};

verus! {

/// Whether a part of a path between two `/` is a name: it is not empty and
/// it is not `.`.
pub open spec fn is_name(part: Seq<char>) -> bool {
    part.len() > 0 && part != seq!['.']
}

/// The parts of a path that are names.
pub open spec fn names() -> spec_fn(Seq<char>) -> bool {
    |part: Seq<char>| is_name(part)
}

/// What a path starts with where that is no name: the root `/` of a path
/// that starts with `/`, else the `.` of a path whose first part is `.`.
pub open spec fn start_of(path: Seq<char>) -> Seq<Seq<char>> {
    if path.len() > 0 && path[0] == '/' {
        seq![seq!['/']]
    } else if parts(path, '/')[0] == seq!['.'] {
        seq![seq!['.']]
    } else {
        Seq::empty()
    }
}

/// The components of a path: its start, then the names between its `/`.
/// An empty part and a part `.` after the first do not count.
pub open spec fn components(path: Seq<char>) -> Seq<Seq<char>> {
    start_of(path) + parts(path, '/').filter(names())
}

/// Whether the components of `suffix` are the last components of `path`.
pub open spec fn path_ends_with(path: Seq<char>, suffix: Seq<char>) -> bool {
    let whole = components(path);
    let end = components(suffix);
    end.len() <= whole.len() && whole.skip(whole.len() - end.len()) == end
}

/// The texts of a list of lists of characters.
pub open spec fn lists(v: Seq<Vec<char>>) -> Seq<Seq<char>> {
    Seq::new(v.len(), |i: int| v[i]@)
}

fn components_of(s: &Vec<char>) -> (r: Vec<Vec<char>>)
    ensures
        lists(r@) == components(s@),
{
    let ranges = split_on(s, 0, s.len(), '/');
    let ghost all = parts(s@, '/');
    assert(s@.subrange(0, s.len() as int) =~= s@);
    let mut out: Vec<Vec<char>> = Vec::new();
    assert(all.len() >= 1);
    let ghost first = all[0];
    assert(first == s@.subrange(ranges@[0].0 as int, ranges@[0].1 as int));
    if s.len() > 0 && s[0] == '/' {
        let root = vec!['/'];
        assert(root@ =~= seq!['/']);
        out.push(root);
        assert(lists(out@) =~= seq![seq!['/']]);
    } else if ranges[0].1 - ranges[0].0 == 1 && s[ranges[0].0] == '.' {
        let dot = vec!['.'];
        assert(dot@ =~= seq!['.']);
        out.push(dot);
        proof {
            assert(first[0] == '.');
            assert(first =~= seq!['.']);
            assert(lists(out@) =~= seq![seq!['.']]);
        }
    } else {
        proof {
            if first == seq!['.'] {
                assert(first.len() == 1);
                assert(first[0] == '.');
                assert(first[0] == s@[ranges@[0].0 as int]);
            }
            assert(lists(out@) =~= Seq::<Seq<char>>::empty());
        }
    }
    assert(lists(out@) == start_of(s@));
    assert(all.take(0) =~= Seq::<Seq<char>>::empty());
    proof {
        reveal(Seq::filter);
    }
    assert(lists(out@) =~= start_of(s@) + all.take(0).filter(names()));
    let mut i: usize = 0;
    while i < ranges.len()
        invariant
            i <= ranges.len(),
            all == parts(s@, '/'),
            ranges@.len() == all.len(),
            forall|k: int|
                0 <= k < ranges@.len() ==> (#[trigger] ranges@[k]).0 <= ranges@[k].1 <= s.len()
                    && s@.subrange(ranges@[k].0 as int, ranges@[k].1 as int) == all[k],
            lists(out@) == start_of(s@) + all.take(i as int).filter(names()),
        decreases ranges.len() - i,
    {
        let (from, to) = ranges[i];
        let ghost part = all[i as int];
        let ghost before = all.take(i as int);
        proof {
            assert(all.take(i + 1) =~= before.push(part));
            before.lemma_filter_push(part, names());
            assert(part == s@.subrange(from as int, to as int));
            if part.len() == 1 {
                assert(part[0] == s@[from as int]);
                if part[0] == '.' {
                    assert(part =~= seq!['.']);
                }
            }
            assert(seq!['.'].len() == 1);
            assert(seq!['.'][0] == '.');
        }
        if to > from && !(to - from == 1 && s[from] == '.') {
            let ghost listed = lists(out@);
            out.push(copy_range(s, from, to));
            assert(lists(out@) =~= listed.push(part));
            assert(lists(out@) =~= start_of(s@) + before.filter(names()).push(part));
        }
        i += 1;
    }
    proof {
        assert(all.take(ranges.len() as int) =~= all);
    }
    out
}

/// Whether the path `path` ends with the path `suffix`, component by
/// component: `a/b/PKG-INFO` ends with `PKG-INFO` and with `b/PKG-INFO`, and
/// `a/xPKG-INFO` ends with neither.
pub fn ends_with(path: &str, suffix: &str) -> (r: bool)
    ensures
        r == path_ends_with(path@, suffix@),
{
    let path_chars = chars_of(path);
    let suffix_chars = chars_of(suffix);
    let whole = components_of(&path_chars);
    let end = components_of(&suffix_chars);
    if end.len() > whole.len() {
        return false;
    }
    let offset = whole.len() - end.len();
    let ghost tail = lists(whole@).skip(offset as int);
    let mut i: usize = 0;
    while i < end.len()
        invariant
            i <= end.len(),
            offset + end.len() == whole.len(),
            tail == lists(whole@).skip(offset as int),
            lists(whole@) == components(path@),
            lists(end@) == components(suffix@),
            forall|k: int| 0 <= k < i ==> tail[k] == lists(end@)[k],
        decreases end.len() - i,
    {
        assert(tail[i as int] == whole@[offset + i]@);
        assert(lists(end@)[i as int] == end@[i as int]@);
        if !same_chars(&whole[offset + i], &end[i]) {
            return false;
        }
        i += 1;
    }
    assert(tail =~= lists(end@));
    true
}

} // verus!

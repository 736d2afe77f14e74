//! Paths as text: their final component, and joining components onto a base.
use vstd::prelude::*;

use crate::text::{chars_of, string_of};

verus! {

/// The separator between path components.
pub const SEPARATOR: char = '/';

/// Where the last component of `s` starts: just past its last separator, or
/// at 0 when there is none.
pub open spec fn segment_start(s: Seq<char>) -> nat
    decreases s.len(),
{
    if s.len() == 0 {
        0
    } else if s.last() == SEPARATOR {
        s.len()
    } else {
        segment_start(s.drop_last())
    }
}

/// The text after the last separator of `s`.
pub open spec fn last_segment(s: Seq<char>) -> Seq<char> {
    s.subrange(segment_start(s) as int, s.len() as int)
}

/// A segment that names no component of its own: empty (a doubled or
/// trailing separator) or `.`.
pub open spec fn is_filler(seg: Seq<char>) -> bool {
    seg.len() == 0 || seg == seq!['.']
}

pub proof fn lemma_segment_start_bounds(s: Seq<char>)
    ensures
        segment_start(s) <= s.len(),
        segment_start(s) > 0 ==> s[segment_start(s) - 1] == SEPARATOR,
        forall|k: int| segment_start(s) <= k < s.len() ==> s[k] != SEPARATOR,
    decreases s.len(),
{
    if s.len() > 0 && s.last() != SEPARATOR {
        lemma_segment_start_bounds(s.drop_last());
        assert forall|k: int| segment_start(s) <= k < s.len() implies s[k] != SEPARATOR by {
            if k < s.len() - 1 {
                assert(s.drop_last()[k] == s[k]);
            }
        }
    }
}

/// Where a segment starts is fixed by the separator before it and the
/// characters after it.
pub proof fn lemma_segment_start_at(s: Seq<char>, j: int)
    requires
        0 <= j <= s.len(),
        j == 0 || s[j - 1] == SEPARATOR,
        forall|k: int| j <= k < s.len() ==> s[k] != SEPARATOR,
    ensures
        segment_start(s) == j,
    decreases s.len(),
{
    if s.len() > j {
        lemma_segment_start_at(s.drop_last(), j);
    }
}

#[via_fn]
proof fn final_component_decreases(s: Seq<char>) {
    lemma_segment_start_bounds(s);
}

/// The final component of path `s`: the last segment that is neither empty
/// nor `.`; none where no such segment exists or where it is `..`.
pub open spec fn final_component(s: Seq<char>) -> Option<Seq<char>>
    decreases s.len(),
    via final_component_decreases
{
    let seg = last_segment(s);
    if is_filler(seg) {
        if segment_start(s) == 0 {
            None
        } else {
            final_component(s.subrange(0, segment_start(s) - 1))
        }
    } else if seg == seq!['.', '.'] {
        None
    } else {
        Some(seg)
    }
}

/// The characters of `v` from `start` up to `end`.
pub fn copy_range(v: &[char], start: usize, end: usize) -> (r: Vec<char>)
    requires
        start <= end <= v@.len(),
    ensures
        r@ == v@.subrange(start as int, end as int),
{
    let mut r: Vec<char> = Vec::new();
    let mut i: usize = start;
    while i < end
        invariant
            start <= i <= end <= v@.len(),
            r@ == v@.subrange(start as int, i as int),
        decreases end - i,
    {
        r.push(v[i]);
        i = i + 1;
    }
    r
}

/// The final component of the path `p`, as `std::path::Path::file_name`
/// finds it for a path written with `/`.
pub fn file_name(p: &[char]) -> (r: Option<Vec<char>>)
    ensures
        r matches Some(n) ==> final_component(p@) == Some(n@),
        r is None ==> final_component(p@) is None,
{
    let mut end: usize = p.len();
    assert(p@.subrange(0, end as int) =~= p@);
    loop
        invariant
            end <= p@.len(),
            final_component(p@.subrange(0, end as int)) == final_component(p@),
        decreases end,
    {
        let ghost s = p@.subrange(0, end as int);
        let mut start: usize = end;
        while start > 0 && p[start - 1] != SEPARATOR
            invariant
                start <= end <= p@.len(),
                forall|k: int| start <= k < end ==> p@[k] != SEPARATOR,
            decreases start,
        {
            start = start - 1;
        }
        proof {
            lemma_segment_start_at(s, start as int);
            assert(last_segment(s) =~= p@.subrange(start as int, end as int));
        }
        let len = end - start;
        let ghost seg = p@.subrange(start as int, end as int);
        assert(len == 1 && p@[start as int] == '.' ==> seg =~= seq!['.']);
        assert(len == 2 && p@[start as int] == '.' && p@[start + 1] == '.' ==> seg =~= seq!['.', '.']);
        proof {
            if seg == seq!['.'] {
                assert(seg[0] == seq!['.'][0]);
            }
            if seg == seq!['.', '.'] {
                assert(seg[0] == seq!['.', '.'][0] && seg[1] == seq!['.', '.'][1]);
            }
        }
        if len == 0 || (len == 1 && p[start] == '.') {
            if start == 0 {
                return None;
            }
            proof {
                assert(s.subrange(0, start - 1) =~= p@.subrange(0, start - 1));
            }
            end = start - 1;
        } else if len == 2 && p[start] == '.' && p[start + 1] == '.' {
            return None;
        } else {
            return Some(copy_range(p, start, end));
        }
    }
}

/// `s` without its trailing separators.
pub open spec fn trim_trailing(s: Seq<char>) -> Seq<char>
    decreases s.len(),
{
    if s.len() > 0 && s.last() == SEPARATOR {
        trim_trailing(s.drop_last())
    } else {
        s
    }
}

/// The path `child` placed under `base`: `child` alone when `base` is empty,
/// else `base` without trailing separators, one separator, then `child`.
pub open spec fn join(base: Seq<char>, child: Seq<char>) -> Seq<char> {
    if base.len() == 0 {
        child
    } else {
        trim_trailing(base) + seq![SEPARATOR] + child
    }
}

/// `base` extended by each of `children` in turn.
pub open spec fn extend(base: Seq<char>, children: Seq<Seq<char>>) -> Seq<char>
    decreases children.len(),
{
    if children.len() == 0 {
        base
    } else {
        join(extend(base, children.drop_last()), children.last())
    }
}

/// The views of a list of strings.
pub open spec fn views(children: Seq<&str>) -> Seq<Seq<char>> {
    children.map_values(|c: &str| c@)
}

fn join_chars(base: Vec<char>, child: &[char]) -> (r: Vec<char>)
    ensures
        r@ == join(base@, child@),
{
    let mut r = base;
    if r.len() == 0 {
        return copy_range(child, 0, child.len());
    }
    while r.len() > 0 && r[r.len() - 1] == SEPARATOR
        invariant
            trim_trailing(r@) == trim_trailing(base@),
            base@.len() > 0,
        decreases r.len(),
    {
        r.pop();
    }
    assert(trim_trailing(r@) == r@);
    r.push(SEPARATOR);
    let mut i: usize = 0;
    while i < child.len()
        invariant
            i <= child@.len(),
            r@ == trim_trailing(base@) + seq![SEPARATOR] + child@.subrange(0, i as int),
        decreases child.len() - i,
    {
        r.push(child[i]);
        i = i + 1;
    }
    assert(child@.subrange(0, child@.len() as int) =~= child@);
    r
}

/// The path `parent` extended by `children`, one component each.
pub fn extend_path(parent: &str, children: &[&str]) -> (r: String)
    ensures
        r@ == extend(parent@, views(children@)),
{
    let mut acc = chars_of(parent);
    let mut i: usize = 0;
    while i < children.len()
        invariant
            i <= children@.len(),
            acc@ == extend(parent@, views(children@.subrange(0, i as int))),
        decreases children.len() - i,
    {
        let child = chars_of(children[i]);
        proof {
            let next = views(children@.subrange(0, i + 1));
            assert(next.drop_last() =~= views(children@.subrange(0, i as int)));
            assert(next.last() == children@[i as int]@);
        }
        acc = join_chars(acc, child.as_slice());
        i = i + 1;
    }
    assert(children@.subrange(0, children@.len() as int) =~= children@);
    string_of(acc.as_slice())
}

/// A single component: not empty, free of separators, neither `.` nor `..`.
pub open spec fn is_component(n: Seq<char>) -> bool {
    &&& n.len() > 0
    &&& forall|k: int| 0 <= k < n.len() ==> n[k] != SEPARATOR
    &&& n != seq!['.']
    &&& n != seq!['.', '.']
}

/// The final component of a component joined onto any base is that
/// component.
pub proof fn lemma_final_component_of_join(base: Seq<char>, n: Seq<char>)
    requires
        is_component(n),
    ensures
        final_component(join(base, n)) == Some(n),
{
    let p = join(base, n);
    let j = p.len() - n.len();
    if base.len() == 0 {
        assert(p == n);
    } else {
        assert(p[j - 1] == SEPARATOR);
    }
    assert forall|k: int| j <= k < p.len() implies p[k] != SEPARATOR by {
        assert(p[k] == n[k - j]);
    }
    lemma_segment_start_at(p, j);
    assert(last_segment(p) =~= n);
}

/// Whether `n` is a single component.
pub fn is_single_component(n: &[char]) -> (r: bool)
    ensures
        r == is_component(n@),
{
    if n.len() == 0 {
        return false;
    }
    let mut i: usize = 0;
    while i < n.len()
        invariant
            i <= n@.len(),
            forall|k: int| 0 <= k < i ==> n@[k] != SEPARATOR,
        decreases n.len() - i,
    {
        if n[i] == SEPARATOR {
            return false;
        }
        i = i + 1;
    }
    let dot = n.len() == 1 && n[0] == '.';
    let dot_dot = n.len() == 2 && n[0] == '.' && n[1] == '.';
    proof {
        if n@ == seq!['.'] {
            assert(n@[0] == seq!['.'][0]);
        }
        if n@ == seq!['.', '.'] {
            assert(n@[0] == seq!['.', '.'][0] && n@[1] == seq!['.', '.'][1]);
        }
        if dot {
            assert(n@ =~= seq!['.']);
        }
        if dot_dot {
            assert(n@ =~= seq!['.', '.']);
        }
    }
    !dot && !dot_dot
}

/// A component placed under any base is the final component of the result.
pub proof fn lemma_final_component_of_extend(base: Seq<char>, n: Seq<char>)
    requires
        is_component(n),
    ensures
        final_component(extend(base, seq![n])) == Some(n),
{
    let children = seq![n];
    assert(children.drop_last() =~= Seq::<Seq<char>>::empty());
    assert(extend(base, children.drop_last()) == base);
    assert(children.last() == n);
    lemma_final_component_of_join(base, n);
}

} // verus!

//! Paths as sequences of segments: parsing a route, normalising a request
//! path, and the longest registered prefix of a path.

use vstd::prelude::*;

verus! {

/// The segments of a vector of strings, as sequences of characters.
pub open spec fn seg_view(v: Seq<String>) -> Seq<Seq<char>> {
    v.map_values(|s: String| s@)
}

/// The pieces of `s` between slashes, empty ones included: `"/a//b"` gives
/// `["", "a", "", "b"]`.
pub open spec fn split_slashes(s: Seq<char>) -> Seq<Seq<char>>
    decreases s.len(),
{
    if s.len() == 0 {
        seq![Seq::empty()]
    } else {
        let prev = split_slashes(s.drop_last());
        if s.last() == '/' {
            prev.push(Seq::empty())
        } else {
            prev.update(prev.len() - 1, prev.last().push(s.last()))
        }
    }
}

/// Holds of a segment with at least one character.
pub open spec fn nonempty() -> spec_fn(Seq<char>) -> bool {
    |p: Seq<char>| p.len() > 0
}

/// The segments of a route: its non-empty pieces between slashes, so that
/// `"/foo/"`, `"foo"` and `"//foo"` all give `["foo"]`.
pub open spec fn route_segments(s: Seq<char>) -> Seq<Seq<char>> {
    split_slashes(s).filter(nonempty())
}

/// Holds when the path ends in an empty segment (a trailing slash).
pub open spec fn ends_with_empty(p: Seq<Seq<char>>) -> bool {
    p.len() > 0 && p.last().len() == 0
}

/// The path without its trailing empty segments.
pub open spec fn trim_trailing_empty(p: Seq<Seq<char>>) -> Seq<Seq<char>>
    decreases p.len(),
{
    if ends_with_empty(p) {
        trim_trailing_empty(p.drop_last())
    } else {
        p
    }
}

/// Holds when `r` is a prefix of `q`, segment by segment.
pub open spec fn is_route_prefix(r: Seq<Seq<char>>, q: Seq<Seq<char>>) -> bool {
    r.len() <= q.len() && q.take(r.len() as int) == r
}

/// The length of the longest prefix of `q` of at most `n` segments that
/// `routes` holds.
pub open spec fn deepest_within(routes: Set<Seq<Seq<char>>>, q: Seq<Seq<char>>, n: nat) -> Option<
    nat,
>
    decreases n,
{
    if routes.contains(q.take(n as int)) {
        Some(n)
    } else if n == 0 {
        None
    } else {
        deepest_within(routes, q, (n - 1) as nat)
    }
}

/// The length of the longest prefix of `q` that `routes` holds, if any.
pub open spec fn deepest_route(routes: Set<Seq<Seq<char>>>, q: Seq<Seq<char>>) -> Option<nat> {
    deepest_within(routes, q, q.len())
}

/// What `deepest_within` returns is a prefix that `routes` holds, and no
/// longer prefix within the bound is held; `None` means that none is.
pub proof fn lemma_deepest_within(routes: Set<Seq<Seq<char>>>, q: Seq<Seq<char>>, n: nat)
    ensures
        match deepest_within(routes, q, n) {
            Some(d) => d <= n && routes.contains(q.take(d as int)) && forall|m: nat|
                d < m <= n ==> !#[trigger] routes.contains(q.take(m as int)),
            None => forall|m: nat| m <= n ==> !#[trigger] routes.contains(q.take(m as int)),
        },
    decreases n,
{
    if !routes.contains(q.take(n as int)) && n > 0 {
        lemma_deepest_within(routes, q, (n - 1) as nat);
    }
}

proof fn lemma_filter_last(p: Seq<Seq<char>>)
    requires
        p.len() >= 1,
    ensures
        p.filter(nonempty()) == if p.last().len() > 0 {
            p.drop_last().filter(nonempty()).push(p.last())
        } else {
            p.drop_last().filter(nonempty())
        },
{
    assert(p.drop_last().push(p.last()) =~= p);
    p.drop_last().lemma_filter_push(p.last(), nonempty());
}

/// Splits a route into its segments, dropping empty ones.
pub fn parse_route(route: &str) -> (r: Vec<String>)
    ensures
        seg_view(r@) == route_segments(route@),
{
    let n = route.unicode_len();
    let mut out: Vec<String> = Vec::new();
    let mut start: usize = 0;
    let mut i: usize = 0;
    proof {
        assert(route@.take(0) =~= Seq::<char>::empty());
        reveal(Seq::filter);
        assert(seq![Seq::<char>::empty()].drop_last() =~= Seq::<Seq<char>>::empty());
        assert(route@.subrange(0, 0) =~= Seq::<char>::empty());
        assert(seg_view(out@) =~= Seq::<Seq<char>>::empty());
    }
    while i < n
        invariant
            n == route@.len(),
            start <= i <= n,
            split_slashes(route@.take(i as int)).len() >= 1,
            split_slashes(route@.take(i as int)).last() == route@.subrange(start as int, i as int),
            split_slashes(route@.take(i as int)).drop_last().filter(nonempty()) == seg_view(out@),
        decreases n - i,
    {
        let c = route.get_char(i);
        let ghost prev = split_slashes(route@.take(i as int));
        let ghost out0 = out@;
        proof {
            assert(route@.take(i + 1).drop_last() =~= route@.take(i as int));
            assert(route@.take(i + 1).last() == c);
            lemma_filter_last(prev);
        }
        if c == '/' {
            if start < i {
                let piece = route.substring_char(start, i).to_owned();
                out.push(piece);
                assert(seg_view(out@) =~= seg_view(out0).push(piece@));
            }
            start = i + 1;
            proof {
                let next = prev.push(Seq::<char>::empty());
                assert(split_slashes(route@.take(i + 1)) == next);
                assert(next.drop_last() =~= prev);
                assert(route@.subrange(i + 1, i + 1) =~= Seq::<char>::empty());
            }
        } else {
            proof {
                let next = prev.update(prev.len() - 1, prev.last().push(c));
                assert(split_slashes(route@.take(i + 1)) == next);
                assert(next.drop_last() =~= prev.drop_last());
                assert(next.last() =~= route@.subrange(start as int, i + 1));
            }
        }
        i = i + 1;
    }
    let ghost out0 = out@;
    proof {
        assert(route@.take(n as int) =~= route@);
        lemma_filter_last(split_slashes(route@));
    }
    if start < n {
        let piece = route.substring_char(start, n).to_owned();
        out.push(piece);
        assert(seg_view(out@) =~= seg_view(out0).push(piece@));
    }
    out
}

/// The number of segments that stay when trailing empty segments are
/// dropped from `path`.
pub fn normalized_len(path: &Vec<String>) -> (n: usize)
    ensures
        n <= path@.len(),
        seg_view(path@).take(n as int) == trim_trailing_empty(seg_view(path@)),
{
    let mut n: usize = path.len();
    proof {
        assert(seg_view(path@).take(n as int) =~= seg_view(path@));
    }
    while n > 0 && path[n - 1].as_str().is_empty()
        invariant
            n <= path@.len(),
            trim_trailing_empty(seg_view(path@).take(n as int)) == trim_trailing_empty(
                seg_view(path@),
            ),
        decreases n,
    {
        proof {
            let p = seg_view(path@).take(n as int);
            assert(ends_with_empty(p));
            assert(p.drop_last() =~= seg_view(path@).take(n - 1));
        }
        n = n - 1;
    }
    proof {
        let p = seg_view(path@).take(n as int);
        assert(!ends_with_empty(p));
    }
    n
}

/// A copy of the segments of `v` from index `from` up to `to`.
pub fn segments_between(v: &Vec<String>, from: usize, to: usize) -> (r: Vec<String>)
    requires
        from <= to <= v@.len(),
    ensures
        seg_view(r@) == seg_view(v@).subrange(from as int, to as int),
{
    let mut r: Vec<String> = Vec::new();
    let mut i: usize = from;
    while i < to
        invariant
            from <= i <= to <= v@.len(),
            seg_view(r@) == seg_view(v@).subrange(from as int, i as int),
        decreases to - i,
    {
        let s = v[i].clone();
        let ghost r0 = r@;
        r.push(s);
        assert(r@ == r0.push(v@[i as int]));
        assert(seg_view(r@) =~= seg_view(r0).push(v@[i as int]@));
        assert(seg_view(r@) =~= seg_view(v@).subrange(from as int, i + 1));
        i = i + 1;
    }
    r
}

/// Appends copies of the segments of `src` to `dst`.
pub fn append_segments(dst: &mut Vec<String>, src: &Vec<String>)
    ensures
        seg_view(final(dst)@) == seg_view(old(dst)@) + seg_view(src@),
{
    let mut i: usize = 0;
    while i < src.len()
        invariant
            i <= src@.len(),
            seg_view(dst@) == seg_view(old(dst)@) + seg_view(src@).take(i as int),
        decreases src@.len() - i,
    {
        let s = src[i].clone();
        let ghost d0 = dst@;
        dst.push(s);
        assert(dst@ == d0.push(src@[i as int]));
        assert(seg_view(dst@) =~= seg_view(d0).push(src@[i as int]@));
        assert(seg_view(dst@) =~= seg_view(old(dst)@) + seg_view(src@).take(i + 1));
        i = i + 1;
    }
    assert(seg_view(src@).take(src@.len() as int) =~= seg_view(src@));
}

} // verus!

//! Laws of mounting, stated over the contracts of `Mount::enter` and
//! `Mount::leave`.

use vstd::prelude::*;

use crate::mount::{entered, left, EnteredView, Mount};
use crate::path::{
    deepest_route, ends_with_empty, is_route_prefix, lemma_deepest_within, trim_trailing_empty,
};
use crate::request::{with_path, RequestView};

verus! {

/// `k` empty segments.
pub open spec fn empty_segments(k: nat) -> Seq<Seq<char>> {
    Seq::new(k, |i: int| Seq::<char>::empty())
}

/// The route that a mount selects for a path: the longest registered prefix
/// of the path without its trailing empty segments.
pub open spec fn selected_route<H>(m: Mount<H>, path: Seq<Seq<char>>) -> Option<Seq<Seq<char>>> {
    let root = trim_trailing_empty(path);
    match deepest_route(m.routes().dom(), root) {
        Some(n) => Some(root.take(n as int)),
        None => None,
    }
}

/// Of two registered routes where the first is a strict prefix of the
/// second, a path under the second is never handed to the first: the
/// selected route is at least as long as the second, and is the second
/// itself when no longer registered route is a prefix of the path.
pub proof fn lemma_specificity<H>(
    m: Mount<H>,
    r1: Seq<Seq<char>>,
    r2: Seq<Seq<char>>,
    path: Seq<Seq<char>>,
)
    requires
        m.routes().contains_key(r1),
        m.routes().contains_key(r2),
        r1.len() < r2.len(),
        is_route_prefix(r1, r2),
        is_route_prefix(r2, trim_trailing_empty(path)),
    ensures
        selected_route(m, path) is Some,
        selected_route(m, path)->Some_0 != r1,
        selected_route(m, path)->Some_0.len() >= r2.len(),
        (forall|r: Seq<Seq<char>>|
            #![trigger m.routes().contains_key(r)]
            m.routes().contains_key(r) && is_route_prefix(r, trim_trailing_empty(path)) ==> r.len()
                <= r2.len()) ==> selected_route(m, path) == Some(r2),
{
    let root = trim_trailing_empty(path);
    let dom = m.routes().dom();
    lemma_deepest_within(dom, root, root.len());
    assert(dom.contains(root.take(r2.len() as int)));
    let d = deepest_route(dom, root)->Some_0;
    assert(root.take(d as int).len() == d);
    if forall|r: Seq<Seq<char>>|
        #![trigger m.routes().contains_key(r)]
        m.routes().contains_key(r) && is_route_prefix(r, root) ==> r.len() <= r2.len() {
        let r = root.take(d as int);
        assert(m.routes().contains_key(r));
        assert(root.take(r.len() as int) =~= r);
    }
}

proof fn lemma_trim_empties(path: Seq<Seq<char>>, k: nat)
    ensures
        trim_trailing_empty(path + empty_segments(k)) == trim_trailing_empty(path),
    decreases k,
{
    if k == 0 {
        assert(path + empty_segments(0) =~= path);
    } else {
        let longer = path + empty_segments(k);
        lemma_trim_empties(path, (k - 1) as nat);
        assert(longer.drop_last() =~= path + empty_segments((k - 1) as nat));
        assert(longer.last() == Seq::<char>::empty());
    }
}

/// Any number of trailing empty segments on a path selects the same route,
/// and so the same handler, as the path without them.
pub proof fn lemma_trailing_empty_segments<H>(m: Mount<H>, path: Seq<Seq<char>>, k: nat)
    ensures
        selected_route(m, path + empty_segments(k)) == selected_route(m, path),
        deepest_route(m.routes().dom(), trim_trailing_empty(path + empty_segments(k)))
            == deepest_route(m.routes().dom(), trim_trailing_empty(path)),
{
    lemma_trim_empties(path, k);
}

/// The handler of a route of `n` segments sees the path without its first
/// `n` segments, and whatever the handler does to the path, it is the
/// original path again once the mount has left.
pub proof fn lemma_path_restored(req: RequestView, n: nat, e: EnteredView, handled: RequestView)
    requires
        e.original == req.url.path,
    ensures
        entered(req, n).url.path == req.url.path.skip(n as int),
        left(handled, e).url.path == req.url.path,
{
}

/// Once the outermost mount has left, the context holds neither
/// `OriginalUrl` nor `VirtualRoot`, whatever the handler did to it.
pub proof fn lemma_outer_mount_leaves_no_entries(
    req: RequestView,
    e: EnteredView,
    handled: RequestView,
)
    requires
        req.original_url is None,
        e.outer == (req.original_url is None),
    ensures
        left(handled, e).original_url is None,
        left(handled, e).virtual_root is None,
{
}

/// Leaving undoes entering: a request whose handler hands it back as it got
/// it is, after the mount has left, the request that the mount received.
pub proof fn lemma_round_trip(req: RequestView, n: nat, e: EnteredView)
    requires
        (req.original_url is None) == (req.virtual_root is None),
        n <= req.url.path.len(),
        e.original == req.url.path,
        e.consumed == n,
        e.outer == (req.original_url is None),
    ensures
        left(entered(req, n), e) == req,
{
    let prefix = req.url.path.take(n as int);
    if let Some(v) = req.virtual_root {
        if !e.outer {
            assert((v.path + prefix).take(v.path.len() as int) =~= v.path);
        }
    }
}

proof fn lemma_trim_is_prefix(p: Seq<Seq<char>>)
    ensures
        trim_trailing_empty(p).len() <= p.len(),
        p.take(trim_trailing_empty(p).len() as int) == trim_trailing_empty(p),
    decreases p.len(),
{
    if ends_with_empty(p) {
        lemma_trim_is_prefix(p.drop_last());
        let t = trim_trailing_empty(p);
        assert(p.take(t.len() as int) =~= p.drop_last().take(t.len() as int));
    } else {
        assert(p.take(p.len() as int) =~= p);
    }
}

/// Through two nested mounts, the innermost handler sees `VirtualRoot` with
/// the route that the outer mount selected followed by the route that the
/// inner mount selected. Once both have left, whatever the innermost handler
/// did, the context holds neither entry and the path is the original one;
/// and where the handler changed nothing, each mount gives back exactly what
/// it received.
pub proof fn lemma_nested_mounts<H1, H2>(
    outer: Mount<H1>,
    inner: Mount<H2>,
    req: RequestView,
    n1: nat,
    e1: EnteredView,
    n2: nat,
    e2: EnteredView,
    handled: RequestView,
)
    requires
        req.original_url is None,
        req.virtual_root is None,
        deepest_route(outer.routes().dom(), trim_trailing_empty(req.url.path)) == Some(n1),
        e1.original == req.url.path,
        e1.consumed == n1,
        e1.outer == (req.original_url is None),
        deepest_route(inner.routes().dom(), trim_trailing_empty(entered(req, n1).url.path))
            == Some(n2),
        e2.original == entered(req, n1).url.path,
        e2.consumed == n2,
        e2.outer == (entered(req, n1).original_url is None),
    ensures
        entered(entered(req, n1), n2).virtual_root == Some(
            with_path(
                req.url,
                selected_route(outer, req.url.path)->Some_0 + selected_route(
                    inner,
                    entered(req, n1).url.path,
                )->Some_0,
            ),
        ),
        entered(entered(req, n1), n2).original_url == Some(req.url),
        left(left(handled, e2), e1).original_url is None,
        left(left(handled, e2), e1).virtual_root is None,
        left(left(handled, e2), e1).url.path == req.url.path,
        left(entered(entered(req, n1), n2), e2) == entered(req, n1),
        left(entered(req, n1), e1) == req,
{
    let p = req.url.path;
    let q = entered(req, n1).url.path;
    lemma_deepest_within(outer.routes().dom(), trim_trailing_empty(p), trim_trailing_empty(p).len());
    lemma_deepest_within(inner.routes().dom(), trim_trailing_empty(q), trim_trailing_empty(q).len());
    lemma_trim_is_prefix(p);
    lemma_trim_is_prefix(q);
    assert(trim_trailing_empty(p).take(n1 as int) =~= p.take(n1 as int));
    assert(trim_trailing_empty(q).take(n2 as int) =~= q.take(n2 as int));
    lemma_round_trip(req, n1, e1);
    lemma_round_trip(entered(req, n1), n2, e2);
}

} // verus!

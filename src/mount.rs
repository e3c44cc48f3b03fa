//! The mount: a registry of handlers keyed by route, and the two steps that
//! bracket the call of the selected handler.

use vstd::prelude::*;

use crate::path::{
    append_segments, deepest_route, lemma_deepest_within, normalized_len, parse_route,
    route_segments, seg_view, segments_between, trim_trailing_empty,
};
use crate::request::{with_path, Request, RequestView};
use crate::trie::{trie_contents, trie_get, trie_get_ancestor, trie_insert, trie_new, RouteTrie};

verus! {

/// A handler bound to a route, with the number of segments of that route.
struct Match<H> {
    handler: H,
    length: usize,
}

/// Binds handlers to routes. For a request it selects the most specific
/// route that is a prefix of the request's path, and rewrites the request so
/// that the handler of that route sees a path relative to it.
pub struct Mount<H> {
    inner: RouteTrie,
    matches: Vec<Match<H>>,
}

/// The failure of a mount to find a route for a request.
#[derive(Debug, Clone, Copy, PartialEq, Eq)]
pub struct NoMatch;

impl NoMatch {
    /// A short description of the failure.
    pub fn description(&self) -> (r: &'static str)
        ensures
            r@ == "No Match"@,
    {
        "No Match"
    }
}

/// What a mount records on entry, to undo its changes to the request on
/// exit.
pub struct Entered {
    original: Vec<String>,
    consumed: usize,
    outer: bool,
    index: usize,
}

/// The value of an [`Entered`].
pub struct EnteredView {
    /// The path of the request as the mount received it.
    pub original: Seq<Seq<char>>,
    /// The number of segments of that path that the selected route consumed.
    pub consumed: nat,
    /// Whether the mount was the outermost one, which set the context entries.
    pub outer: bool,
    /// Where the selected handler stands in the mount.
    pub index: nat,
}

impl View for Entered {
    type V = EnteredView;

    closed spec fn view(&self) -> EnteredView {
        EnteredView {
            original: seg_view(self.original@),
            consumed: self.consumed as nat,
            outer: self.outer,
            index: self.index as nat,
        }
    }
}

/// The request as a mount hands it to the handler of a route of `n`
/// segments: `VirtualRoot` gains the `n` segments that the route consumed.
pub open spec fn entered(req: RequestView, n: nat) -> RequestView {
    let prefix = req.url.path.take(n as int);
    RequestView {
        url: with_path(req.url, req.url.path.skip(n as int)),
        original_url: if req.original_url is None {
            Some(req.url)
        } else {
            req.original_url
        },
        virtual_root: if req.original_url is None {
            Some(with_path(req.url, prefix))
        } else {
            match req.virtual_root {
                Some(v) => Some(with_path(v, v.path + prefix)),
                None => None,
            }
        },
    }
}

/// `n` less `k`, or zero where `k` is larger.
pub open spec fn saturating_sub(n: nat, k: nat) -> nat {
    if n >= k {
        (n - k) as nat
    } else {
        0
    }
}

/// The request as a mount leaves it after its handler returned it as `req`.
pub open spec fn left(req: RequestView, e: EnteredView) -> RequestView {
    RequestView {
        url: with_path(req.url, e.original),
        original_url: if e.outer {
            None
        } else {
            req.original_url
        },
        virtual_root: if e.outer {
            None
        } else {
            match req.virtual_root {
                Some(v) => Some(
                    with_path(v, v.path.take(saturating_sub(v.path.len(), e.consumed) as int)),
                ),
                None => None,
            }
        },
    }
}

impl<H> Mount<H> {
    /// The table of bindings agrees with the trie: every route leads to a
    /// binding of its own, which records the route's length.
    pub closed spec fn wf(&self) -> bool {
        let c = trie_contents(self.inner);
        &&& forall|k: Seq<Seq<char>>| #[trigger]
            c.contains_key(k) ==> c[k] < self.matches@.len() && self.matches@[c[k] as int].length
                == k.len()
        &&& forall|k1: Seq<Seq<char>>, k2: Seq<Seq<char>>|
            #![trigger c[k1], c[k2]]
            c.contains_key(k1) && c.contains_key(k2) && c[k1] == c[k2] ==> k1 == k2
    }

    /// The handler bound to each route.
    pub closed spec fn routes(&self) -> Map<Seq<Seq<char>>, H> {
        let c = trie_contents(self.inner);
        Map::new(
            |k: Seq<Seq<char>>| c.contains_key(k),
            |k: Seq<Seq<char>>| self.matches@[c[k] as int].handler,
        )
    }

    /// The handler that stands at `i`, if any.
    pub closed spec fn handler_at(&self, i: nat) -> Option<H> {
        if i < self.matches@.len() {
            Some(self.matches@[i as int].handler)
        } else {
            None
        }
    }

    proof fn lemma_routes_dom(&self)
        ensures
            self.routes().dom() == trie_contents(self.inner).dom(),
    {
        assert(self.routes().dom() =~= trie_contents(self.inner).dom());
    }

    /// A mount with no routes.
    pub fn new() -> (r: Self)
        ensures
            r.wf(),
            r.routes().dom().is_empty(),
    {
        let r = Mount { inner: trie_new(), matches: Vec::new() };
        proof {
            r.lemma_routes_dom();
        }
        r
    }

    /// Binds `handler` to `route`, replacing the handler bound to the same
    /// route before. The route is split on slashes, empty segments dropped.
    pub fn on(&mut self, route: &str, handler: H)
        requires
            old(self).wf(),
        ensures
            final(self).wf(),
            final(self).routes() == old(self).routes().insert(route_segments(route@), handler),
    {
        let key = parse_route(route);
        let length = key.len();
        let ghost k = seg_view(key@);
        assert(k.len() == key@.len());
        match trie_get(&self.inner, &key) {
            Some(i) => {
                self.matches[i] = Match { handler, length };
            },
            None => {
                let i = self.matches.len();
                trie_insert(&mut self.inner, &key, i);
                self.matches.push(Match { handler, length });
            },
        }
        let ghost c0 = trie_contents(old(self).inner);
        let ghost c = trie_contents(self.inner);
        assert forall|q: Seq<Seq<char>>| #[trigger]
            c.contains_key(q) implies c[q] < self.matches@.len() && self.matches@[c[q] as int].length
            == q.len() by {
            if q != k {
                assert(c0.contains_key(q));
                assert(c0[q] != c0.index(k) || !c0.contains_key(k));
            }
        }
        assert(self.routes() =~= old(self).routes().insert(route_segments(route@), handler)) by {
            assert forall|q: Seq<Seq<char>>|
                c.contains_key(q) && q != k implies self.matches@[c[q] as int].handler == old(
                self,
            ).matches@[c0[q] as int].handler by {
                assert(c0.contains_key(q));
                assert(c0[q] != c0.index(k) || !c0.contains_key(k));
            }
        }
    }

    /// Binds `handler` to `route`; the same as [`Mount::on`].
    pub fn mount(&mut self, route: &str, handler: H)
        requires
            old(self).wf(),
        ensures
            final(self).wf(),
            final(self).routes() == old(self).routes().insert(route_segments(route@), handler),
    {
        self.on(route, handler)
    }

    /// The handler of the route selected on entry, if it still stands in this
    /// mount.
    pub fn handler(&self, e: &Entered) -> (r: Option<&H>)
        ensures
            match r {
                Some(h) => self.handler_at(e@.index) == Some(*h),
                None => self.handler_at(e@.index) is None,
            },
    {
        if e.index < self.matches.len() {
            Some(&self.matches[e.index].handler)
        } else {
            None
        }
    }

    /// The step before the handler runs. Selects the deepest route that is a
    /// prefix of the request's path without its trailing empty segments; on
    /// no such route the request is left as it is and `NoMatch` returned.
    /// Otherwise the path loses the route's segments, the outermost mount
    /// sets `OriginalUrl` to the URL and `VirtualRoot` to the URL with the
    /// consumed segments as its path, and an inner mount extends the path of
    /// `VirtualRoot` by the segments it consumed.
    pub fn enter(&self, req: &mut Request) -> (r: Result<Entered, NoMatch>)
        requires
            self.wf(),
        ensures
            ({
                let root = trim_trailing_empty(old(req)@.url.path);
                match deepest_route(self.routes().dom(), root) {
                    None => r is Err && final(req)@ == old(req)@,
                    Some(n) => r is Ok && final(req)@ == entered(old(req)@, n)
                        && r->Ok_0@ == (EnteredView {
                        original: old(req)@.url.path,
                        consumed: n,
                        outer: old(req)@.original_url is None,
                        index: r->Ok_0@.index,
                    }) && self.handler_at(r->Ok_0@.index) == Some(self.routes()[root.take(n as int)]),
                }
            }),
    {
        let ghost root_v = trim_trailing_empty(req@.url.path);
        let n = normalized_len(&req.url.path);
        let root = segments_between(&req.url.path, 0, n);
        proof {
            self.lemma_routes_dom();
            assert(seg_view(root@) == root_v);
        }
        let index = match trie_get_ancestor(&self.inner, &root) {
            Some(i) => i,
            None => {
                return Err(NoMatch);
            },
        };
        let ghost depth = deepest_route(self.routes().dom(), root_v)->Some_0;
        proof {
            lemma_deepest_within(self.routes().dom(), root_v, root_v.len());
            assert(trie_contents(self.inner).contains_key(root_v.take(depth as int)));
        }
        let length = self.matches[index].length;
        let original = segments_between(&req.url.path, 0, req.url.path.len());
        assert(seg_view(req.url.path@).subrange(0, req.url.path@.len() as int) =~= seg_view(
            req.url.path@,
        ));
        let ghost p = old(req)@.url.path;
        proof {
            assert(depth <= root_v.len());
            assert(root_v.len() <= p.len());
            assert(seg_view(original@).subrange(0, length as int) =~= p.take(length as int));
        }
        let outer = req.original_url.is_none();
        if outer {
            let here = req.url.copy();
            let mut vr = req.url.copy();
            vr.path = segments_between(&original, 0, length);
            req.original_url = Some(here);
            req.virtual_root = Some(vr);
        } else {
            let taken = req.virtual_root.take();
            match taken {
                Some(mut v) => {
                    let prefix = segments_between(&original, 0, length);
                    append_segments(&mut v.path, &prefix);
                    req.virtual_root = Some(v);
                },
                None => {},
            }
        }
        req.url.path = segments_between(&original, length, original.len());
        assert(seg_view(original@).subrange(length as int, original@.len() as int) =~= p.skip(
            length as int,
        ));
        Ok(Entered { original, consumed: length, outer, index })
    }

    /// The step after the handler returned, whether it succeeded or failed:
    /// the path is what the mount received, the outermost mount removes both
    /// context entries, and an inner mount shortens the path of
    /// `VirtualRoot` by the segments it consumed.
    pub fn leave(&self, req: &mut Request, e: Entered)
        ensures
            final(req)@ == left(old(req)@, e@),
    {
        let Entered { original, consumed, outer, index: _ } = e;
        req.url.path = original;
        if outer {
            req.original_url = None;
            req.virtual_root = None;
        } else {
            let taken = req.virtual_root.take();
            match taken {
                Some(mut v) => {
                    let len = v.path.len();
                    let keep = if len >= consumed {
                        len - consumed
                    } else {
                        0
                    };
                    v.path.truncate(keep);
                    proof {
                        assert(seg_view(v.path@) =~= seg_view(
                            old(req).virtual_root->Some_0.path@,
                        ).take(keep as int));
                    }
                    req.virtual_root = Some(v);
                },
                None => {},
            }
        }
    }
}

} // verus!

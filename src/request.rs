//! The part of a request that routing reads and writes: its URL, and the two
//! entries of its per-request context that mounts keep.

use vstd::prelude::*;

use crate::path::{seg_view, segments_between};

verus! {

/// An absolute URL, with its path split into segments.
#[derive(Debug, Clone, PartialEq, Eq)]
pub struct Url {
    pub scheme: String,
    pub username: Option<String>,
    pub password: Option<String>,
    pub host: String,
    pub port: u16,
    pub path: Vec<String>,
    pub query: Option<String>,
    pub fragment: Option<String>,
}

/// The value of a [`Url`]: each string as its characters.
pub struct UrlView {
    pub scheme: Seq<char>,
    pub username: Option<Seq<char>>,
    pub password: Option<Seq<char>>,
    pub host: Seq<char>,
    pub port: u16,
    pub path: Seq<Seq<char>>,
    pub query: Option<Seq<char>>,
    pub fragment: Option<Seq<char>>,
}

/// The characters of an optional string.
pub open spec fn opt_view(s: Option<String>) -> Option<Seq<char>> {
    match s {
        Some(t) => Some(t@),
        None => None,
    }
}

/// The same URL with another path.
pub open spec fn with_path(u: UrlView, path: Seq<Seq<char>>) -> UrlView {
    UrlView { path, ..u }
}

impl View for Url {
    type V = UrlView;

    open spec fn view(&self) -> UrlView {
        UrlView {
            scheme: self.scheme@,
            username: opt_view(self.username),
            password: opt_view(self.password),
            host: self.host@,
            port: self.port,
            path: seg_view(self.path@),
            query: opt_view(self.query),
            fragment: opt_view(self.fragment),
        }
    }
}

fn clone_opt(s: &Option<String>) -> (r: Option<String>)
    ensures
        opt_view(r) == opt_view(*s),
{
    match s {
        Some(t) => Some(t.clone()),
        None => None,
    }
}

impl Url {
    /// A copy of this URL.
    pub fn copy(&self) -> (r: Url)
        ensures
            r@ == self@,
    {
        assert(seg_view(self.path@).subrange(0, self.path@.len() as int) =~= seg_view(self.path@));
        Url {
            scheme: self.scheme.clone(),
            username: clone_opt(&self.username),
            password: clone_opt(&self.password),
            host: self.host.clone(),
            port: self.port,
            path: segments_between(&self.path, 0, self.path.len()),
            query: clone_opt(&self.query),
            fragment: clone_opt(&self.fragment),
        }
    }
}

/// What routing sees of a request: its URL, and the context entries
/// [`OriginalUrl`] and [`VirtualRoot`], each present or absent.
#[derive(Debug, Clone, PartialEq, Eq)]
pub struct Request {
    pub url: Url,
    pub original_url: Option<Url>,
    pub virtual_root: Option<Url>,
}

/// The value of a [`Request`].
pub struct RequestView {
    pub url: UrlView,
    pub original_url: Option<UrlView>,
    pub virtual_root: Option<UrlView>,
}

/// The value of an optional URL.
pub open spec fn opt_url_view(u: Option<Url>) -> Option<UrlView> {
    match u {
        Some(v) => Some(v@),
        None => None,
    }
}

impl View for Request {
    type V = RequestView;

    open spec fn view(&self) -> RequestView {
        RequestView {
            url: self.url@,
            original_url: opt_url_view(self.original_url),
            virtual_root: opt_url_view(self.virtual_root),
        }
    }
}

impl Request {
    /// A request for `url` whose context holds neither entry.
    pub fn new(url: Url) -> (r: Request)
        ensures
            r@ == (RequestView { url: url@, original_url: None, virtual_root: None }),
    {
        Request { url, original_url: None, virtual_root: None }
    }
}

/// The key of the context entry that holds the URL exactly as it was
/// received, before any mount rewrote its path. It is present while the
/// outermost mount handles the request.
#[derive(Debug, Clone, Copy)]
pub struct OriginalUrl;

impl OriginalUrl {
    /// The entry of this key in the request's context.
    pub fn get(req: &Request) -> (r: Option<&Url>)
        ensures
            match r {
                Some(u) => req.original_url == Some(*u),
                None => req.original_url is None,
            },
    {
        req.original_url.as_ref()
    }
}

/// The key of the context entry whose path is what the enclosing mounts have
/// consumed, so that a handler can tell its own address. It is present
/// exactly while [`OriginalUrl`] is.
#[derive(Debug, Clone, Copy)]
pub struct VirtualRoot;

impl VirtualRoot {
    /// The entry of this key in the request's context.
    pub fn get(req: &Request) -> (r: Option<&Url>)
        ensures
            match r {
                Some(u) => req.virtual_root == Some(*u),
                None => req.virtual_root is None,
            },
    {
        req.virtual_root.as_ref()
    }
}

} // verus!

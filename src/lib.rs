//! Mounting of request handlers on path prefixes.
//!
//! A [`Mount`] binds handlers to routes, selects for each request the most
//! specific route that is a prefix of its path, rewrites the path so that the
//! handler sees it relative to that route, and undoes the rewrite afterwards.
//! The entries [`OriginalUrl`] and [`VirtualRoot`] of a request tell a nested
//! handler where it stands.

mod laws;
mod mount;
mod path;
mod request;
mod trie;

pub use laws::{
    empty_segments, lemma_nested_mounts, lemma_outer_mount_leaves_no_entries, lemma_path_restored,
    lemma_round_trip, lemma_specificity, lemma_trailing_empty_segments, selected_route,
};
pub use mount::{entered, left, saturating_sub, Entered, EnteredView, Mount, NoMatch};
pub use path::{
    append_segments, deepest_route, deepest_within, ends_with_empty, is_route_prefix,
    lemma_deepest_within, nonempty, normalized_len, parse_route, route_segments, seg_view,
    segments_between, split_slashes, trim_trailing_empty,
};
pub use request::{
    opt_url_view, opt_view, with_path, OriginalUrl, Request, RequestView, Url, UrlView, VirtualRoot,
};

//! The segment trie of `sequence_trie`, as this library uses it: keys are
//! sequences of path segments, values are indices into a table of bindings.

use sequence_trie::SequenceTrie;
use vstd::prelude::*;

use crate::path::{deepest_route, seg_view};

verus! {

/// A trie of `sequence_trie` from routes to indices. Verus refuses the
/// declaration of `SequenceTrie` itself, whose key is bound by a trait of that
/// crate, so the trie stands in a private field that Verus does not read.
#[verifier::external_body]
pub struct RouteTrie {
    inner: SequenceTrie<String, usize>,
}

/// The routes that a trie holds, each with the index stored under it.
pub uninterp spec fn trie_contents(t: RouteTrie) -> Map<Seq<Seq<char>>, usize>;

/// Relies on `SequenceTrie::new`: a trie that holds nothing.
#[verifier::external_body]
pub(crate) fn trie_new() -> (r: RouteTrie)
    ensures
        trie_contents(r).dom().is_empty(),
{
    RouteTrie { inner: SequenceTrie::new() }
}

/// Relies on `SequenceTrie::insert`: the value is stored under the key,
/// replacing what was there, and every other key keeps its value.
#[verifier::external_body]
pub(crate) fn trie_insert(t: &mut RouteTrie, key: &Vec<String>, value: usize)
    ensures
        trie_contents(*final(t)) == trie_contents(*old(t)).insert(seg_view(key@), value),
{
    t.inner.insert(key.iter(), value);
}

/// Relies on `SequenceTrie::get`: the value stored under exactly this key.
#[verifier::external_body]
pub(crate) fn trie_get(t: &RouteTrie, key: &Vec<String>) -> (r: Option<usize>)
    ensures
        trie_contents(*t).contains_key(seg_view(key@)) ==> r == Some(
            trie_contents(*t)[seg_view(key@)],
        ),
        !trie_contents(*t).contains_key(seg_view(key@)) ==> r is None,
{
    t.inner.get(key.iter()).copied()
}

/// Relies on `SequenceTrie::get_ancestor`: the value of the deepest node on
/// the key's path from the root that holds one, that is, the value stored
/// under the longest prefix of the key that the trie holds.
#[verifier::external_body]
pub(crate) fn trie_get_ancestor(t: &RouteTrie, key: &Vec<String>) -> (r: Option<
    usize,
>)
    ensures
        match deepest_route(trie_contents(*t).dom(), seg_view(key@)) {
            Some(n) => r == Some(trie_contents(*t)[seg_view(key@).take(n as int)]),
            None => r is None,
        },
{
    t.inner.get_ancestor(key.iter()).copied()
}

} // verus!

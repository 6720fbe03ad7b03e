//! Catalog-wide laws, stated and proved over the same spec functions
//! that the executable functions' contracts use.

use vstd::prelude::*;
use crate::content::spec_with_path;
use crate::content::identity_of;
use crate::content::BlogMetaView;
use crate::content::Blog;
use crate::parser::Parser;
use crate::parser::inserted;
use crate::parser::attempts_of;
use crate::parser::sat_count;
use crate::parser::loaded_meta;
use crate::parser::meta_map_view;

verus! {

/// Deriving a metadata record from a filename is deterministic: the same
/// path always yields the same identity, title and timestamp.  Together
/// with `with_path`'s contract, two calls on equal paths agree.
pub proof fn lemma_with_path_deterministic(p1: Seq<u8>, p2: Seq<u8>)
    requires
        p1 == p2,
    ensures
        spec_with_path(p1) == spec_with_path(p2),
{
}

/// The identity is a pure function of the (title, timestamp, path)
/// triple: records that agree on the triple get the same identity,
/// whatever their other fields hold.
pub proof fn lemma_identity_pure(m1: BlogMetaView, m2: BlogMetaView)
    requires
        m1.title == m2.title,
        m1.timestamp == m2.timestamp,
        m1.path == m2.path,
    ensures
        identity_of(m1.title, m1.timestamp, m1.path) == identity_of(
            m2.title,
            m2.timestamp,
            m2.path,
        ),
{
}

/// Caching the same parsed record twice is idempotent on the record
/// store, which keeps a single entry for the identity, while the display
/// index grows by one entry each time and the attempt counter is bumped
/// each time.
pub proof fn lemma_insert_idempotent(p0: Parser, p1: Parser, p2: Parser, key: u64, val: Blog)
    requires
        inserted(p0, p1, key, val),
        inserted(p1, p2, key, val),
    ensures
        p2.inner.blogs@ == p1.inner.blogs@,
        p2.inner.blogs@.contains_key(key) && p2.inner.blogs@[key] == val,
        p2.inner.indexs@.len() == p0.inner.indexs@.len() + 2,
        p1.inner.indexs@.len() == p0.inner.indexs@.len() + 1,
        attempts_of(p1.inner.records@, key) == sat_count(attempts_of(p0.inner.records@, key), 1),
        attempts_of(p2.inner.records@, key) == sat_count(attempts_of(p1.inner.records@, key), 1),
{
    assert(p2.inner.blogs@ =~= p1.inner.blogs@);
}

/// The load offset never moves backwards, and once it lies inside the
/// listing it never passes the listing's end.
pub proof fn lemma_load_offset_monotone(pre: Parser, post: Parser, cnt: u64)
    requires
        loaded_meta(pre, post, cnt),
    ensures
        post.offset >= pre.offset,
        pre.offset <= pre.paths@.len() ==> post.offset <= pre.paths@.len(),
{
}

/// Loading more metadata when every path is already covered is a no-op:
/// the offset, the discovered identities and the stored metadata stand
/// as they were.
pub proof fn lemma_load_exhausted_noop(pre: Parser, post: Parser, cnt: u64)
    requires
        loaded_meta(pre, post, cnt),
        pre.offset >= pre.paths@.len(),
    ensures
        post.offset == pre.offset,
        post.ids@ == pre.ids@,
        meta_map_view(post.metas@) == meta_map_view(pre.metas@),
{
}

} // verus!


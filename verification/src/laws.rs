//! Laws relating the four request operations, stated over the same abstract
//! catalog and specification functions that the operations' contracts use.

use crate::handlers::UploadField;
use crate::handlers::apply_upload;
use crate::handlers::chunk_views;
use crate::handlers::delete_spec;
use crate::handlers::stream_spec;
use vstd::prelude::*;

verus! {

/// Round trip: uploading a field named `n` and then streaming `n` yields
/// exactly the field's content, byte for byte.
pub proof fn lemma_upload_then_stream(m: Map<Seq<char>, Seq<u8>>, f: UploadField, n: Seq<char>)
    requires
        f.name_view() == Some(n),
    ensures
        stream_spec(apply_upload(m, seq![f]), n) == Some(f.content_view()),
{
    assert(seq![f][0] == f);
    assert(seq![f].skip(1) =~= Seq::<UploadField>::empty());
    let m1 = m.insert(n, f.content_view());
    assert(apply_upload(m1, seq![f].skip(1)) == m1);
    assert(apply_upload(m, seq![f]) == m1);
}

/// Idempotent listing: two listings of the same catalog with no intervening
/// writes name the same set of files.
pub proof fn lemma_list_idempotent(
    m: Map<Seq<char>, Seq<u8>>,
    names1: Seq<Seq<char>>,
    names2: Seq<Seq<char>>,
)
    requires
        names1.to_set() == m.dom(),
        names2.to_set() == m.dom(),
    ensures
        names1.to_set() == names2.to_set(),
{
}

/// Deletion effect: after deleting `n`, a listing no longer contains `n` and
/// streaming `n` finds nothing.
pub proof fn lemma_delete_effect(m: Map<Seq<char>, Seq<u8>>, n: Seq<char>)
    requires
        m.dom().contains(n),
    ensures
        delete_spec(m, n) matches Some(m2) && !m2.dom().contains(n) && stream_spec(m2, n) is None,
{
}

/// An upload whose field carries no chunks still creates a zero-byte file
/// that a listing contains.
pub proof fn lemma_empty_upload_listed(m: Map<Seq<char>, Seq<u8>>, f: UploadField, n: Seq<char>)
    requires
        f.name_view() == Some(n),
        f.chunks@.len() == 0,
    ensures
        apply_upload(m, seq![f]).dom().contains(n),
        apply_upload(m, seq![f])[n].len() == 0,
{
    assert(chunk_views(f.chunks@) =~= Seq::<Seq<u8>>::empty());
    assert(f.content_view().len() == 0);
    lemma_upload_then_stream(m, f, n);
}

/// Concurrent uploads of distinct filenames both succeed whatever their
/// interleaving — the catalog is the same either way — and both stay
/// independently retrievable with their own contents.
pub proof fn lemma_distinct_uploads_commute(
    m: Map<Seq<char>, Seq<u8>>,
    n1: Seq<char>,
    c1: Seq<u8>,
    n2: Seq<char>,
    c2: Seq<u8>,
)
    requires
        n1 != n2,
    ensures
        m.insert(n1, c1).insert(n2, c2) == m.insert(n2, c2).insert(n1, c1),
        stream_spec(m.insert(n1, c1).insert(n2, c2), n1) == Some(c1),
        stream_spec(m.insert(n1, c1).insert(n2, c2), n2) == Some(c2),
{
    assert(m.insert(n1, c1).insert(n2, c2) =~= m.insert(n2, c2).insert(n1, c1));
}

/// Deleting an absent name finds nothing; deleting a present name succeeds
/// once and then finds nothing the second time.
pub proof fn lemma_delete_twice(m: Map<Seq<char>, Seq<u8>>, n: Seq<char>)
    ensures
        !m.dom().contains(n) ==> delete_spec(m, n) is None,
        m.dom().contains(n) ==> (delete_spec(m, n) matches Some(m2) && delete_spec(m2, n) is None),
{
}

} // verus!

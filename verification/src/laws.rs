//! Laws of the service: properties that relate several operations,
//! stated and proved over the same spec functions the operations'
//! contracts use.

use vstd::prelude::*;

use crate::catalog::{
    lemma_filter_sorted, lemma_index_of_push, spec_enqueue_step, spec_get, EnqueueOutcome,
};
use crate::models::{AssetId, AssetKind, AssetRecord, BlobKey, DerivedKind, DerivedState};
use crate::service::{upload_ok_post, MediaService};

verus! {

/// Round-trip fidelity: after any successful upload, reading the
/// original back returns exactly the submitted bytes.
pub proof fn lemma_upload_roundtrip(
    pre: MediaService,
    post: MediaService,
    kind: AssetKind,
    filename: Seq<char>,
    data: Seq<u8>,
    id: AssetId,
)
    requires
        pre.wf(),
        upload_ok_post(pre, post, kind, filename, data, id),
    ensures
        post.spec_get_original(kind, id) == Some(data),
{
    let rec = post.records().last();
    lemma_index_of_push(pre.records(), rec, id);
    assert(spec_get(post.records(), id) == Some(rec));
}

/// Listings are ordered by upload time ascending: the catalog keeps its
/// records sorted, and filtering by kind keeps them sorted.
pub proof fn lemma_list_sorted(svc: MediaService, kind: AssetKind)
    requires
        svc.wf(),
    ensures
        forall|i: int, j: int|
            0 <= i <= j < svc.spec_list(kind).len() ==> #[trigger] svc.spec_list(
                kind,
            )[i].uploaded_at_ms <= #[trigger] svc.spec_list(kind)[j].uploaded_at_ms,
{
    lemma_filter_sorted(svc.records(), |rec: AssetRecord| rec.kind == kind);
}

/// A listing reflects an upload immediately after it returns: the new
/// record is appended to the listing of its kind, and listings of the
/// other kind are untouched.
pub proof fn lemma_upload_reflected_in_list(
    pre: MediaService,
    post: MediaService,
    kind: AssetKind,
    filename: Seq<char>,
    data: Seq<u8>,
    id: AssetId,
)
    requires
        upload_ok_post(pre, post, kind, filename, data, id),
    ensures
        post.spec_list(kind) == pre.spec_list(kind).push(post.records().last()),
        forall|other: AssetKind|
            other != kind ==> #[trigger] post.spec_list(other) == pre.spec_list(other),
{
    reveal(Seq::filter);
    let rec = post.records().last();
    assert(post.records().drop_last() == pre.records());
    assert forall|other: AssetKind|
        other != kind implies #[trigger] post.spec_list(other) == pre.spec_list(other) by {
        assert(post.records().drop_last() == pre.records());
    }
}

/// An upload leaves every applicable derived kind `Pending`, so a
/// duplicate enqueue for the new asset starts no second job: it is a
/// no-op that reports `AlreadyPending`.
pub proof fn lemma_enqueue_after_upload_is_noop(
    pre: MediaService,
    post: MediaService,
    kind: AssetKind,
    filename: Seq<char>,
    data: Seq<u8>,
    id: AssetId,
    k: DerivedKind,
)
    requires
        upload_ok_post(pre, post, kind, filename, data, id),
        k.applies_to(kind),
    ensures
        ({
            let rec = post.records().last();
            spec_enqueue_step(rec.derived.spec_get(k)) == (
                DerivedState::Pending,
                EnqueueOutcome::AlreadyPending,
            )
        }),
{
    let rec = post.records().last();
    match k {
        DerivedKind::Thumbnail => {},
        DerivedKind::TransientMarkers => {},
        DerivedKind::Waveform => {},
    }
}

/// A completed derived-asset job is visible to readers: the record's
/// slot is `Ready` under the derived key of the asset, and the blob
/// store serves exactly the committed artifact under that key.
pub proof fn lemma_job_visible_to_readers(
    pre: MediaService,
    post: MediaService,
    id: AssetId,
    kind: DerivedKind,
    artifact: Seq<u8>,
)
    requires
        pre.wf(),
        crate::service::job_done_post(pre, post, id, kind, artifact),
    ensures
        ({
            let key = BlobKey::spec_derived(kind, id);
            &&& post.blobs_view().contains_key(key)
            &&& post.blobs_view()[key] == artifact
            &&& spec_get(post.records(), id) matches Some(rec) && (rec.derived.spec_get(kind)
                matches DerivedState::Ready { key: k2, produced_at } && k2 == key)
        }),
{
    let i = crate::catalog::spec_index_of(pre.records(), id)->Some_0;
    crate::catalog::lemma_find_from(pre.records(), id, 0);
    let rec = pre.records()[i];
    let key = BlobKey::spec_derived(kind, id);
    let at = choose|at: u64|
        post.records() == pre.records().update(
            i,
            (AssetRecord {
                derived: rec.derived.spec_set(kind, (DerivedState::Ready { key, produced_at: at })),
                ..rec
            }),
        );
    rec.derived.lemma_set_frame(kind, (DerivedState::Ready { key, produced_at: at }));
    crate::catalog::lemma_find_from_same_ids(pre.records(), post.records(), id, 0);
    assert(spec_get(post.records(), id) == Some(post.records()[i]));
}

/// After its thumbnail job completes, an asset's thumbnail read serves
/// exactly the committed artifact, no longer the fallback.
pub proof fn lemma_thumbnail_after_job(
    pre: MediaService,
    post: MediaService,
    id: AssetId,
    artifact: Seq<u8>,
)
    requires
        pre.wf(),
        crate::service::job_done_post(pre, post, id, DerivedKind::Thumbnail, artifact),
    ensures
        post.spec_thumbnail_response(id) == artifact,
{
    lemma_job_visible_to_readers(pre, post, id, DerivedKind::Thumbnail, artifact);
}

/// Distinct ids never collide in the blob store: the original keys of
/// two different assets differ, as do the derived keys of two different
/// assets or two different kinds — key spaces are disjoint.
pub proof fn lemma_key_spaces_disjoint(
    kind1: AssetKind,
    id1: AssetId,
    kind2: AssetKind,
    id2: AssetId,
    dk: DerivedKind,
)
    ensures
        id1 != id2 ==> BlobKey::spec_original(kind1, id1) != BlobKey::spec_original(kind2, id2),
        BlobKey::spec_original(kind1, id1) != BlobKey::spec_derived(dk, id2),
{
    match dk {
        DerivedKind::Thumbnail => {},
        DerivedKind::TransientMarkers => {},
        DerivedKind::Waveform => {},
    }
}

} // verus!

//! The media service: ingestion, queries, and the derived-asset pipeline
//! over one blob store and one catalog.
//!
//! The service owns the only shared mutable state; a caller serializes
//! access to it (one lock around each call). Its invariant ties the two
//! components together: a record exists in the catalog only if its
//! original bytes are committed in the blob store, and every `Ready`
//! derived slot points at a committed artifact under the derived key of
//! its own asset.

use vstd::prelude::*;

use crate::analysis::{
    encode_markers, spec_encoded_markers, spec_envelope, spec_markers, transient_markers,
    analyze_audio_waveform, SENSITIVITY_SCALE,
};
use crate::catalog::{
    catalog_wf, lemma_find_from, spec_contains, spec_enqueue_step, spec_get, spec_index_of,
    spec_latest, Catalog, EnqueueOutcome,
};
use crate::models::{
    AppError, AssetId, AssetKind, AssetRecord, AudioAnalysis, AudioInfo, BlobKey, DerivedFetch,
    DerivedKind, DerivedSet, DerivedState, UploadResponse, VideoInfo,
};
use crate::store::BlobStore;
use crate::thumbs::{generate_placeholder_thumbnail, spec_placeholder_jpeg};

verus! {

/// Duration assigned to an audio clip by the analyzer, in milliseconds.
pub const DEFAULT_DURATION_MS: u64 = 180_000;

/// Sample rate reported by the analyzer, in hertz.
pub const DEFAULT_SAMPLE_RATE: u32 = 44_100;

/// Window size of the waveform envelope, in samples.
pub const WAVEFORM_WINDOW: usize = 1024;

/// Relies on uuid's `Uuid::new_v4`: a freshly generated random version-4
/// identifier, taken as its 128-bit value. Nothing is promised of the
/// value; callers handle collisions themselves.
#[verifier::external_body]
fn fresh_asset_id() -> AssetId {
    uuid::Uuid::new_v4().as_u128()
}

/// Relies on chrono's `Utc::now` and `DateTime::timestamp_millis`: the
/// wall clock as milliseconds since the Unix epoch. Nothing is promised
/// of the value; callers clamp it into their own ordering.
#[verifier::external_body]
fn now_millis() -> i64 {
    chrono::Utc::now().timestamp_millis()
}

/// An upload is rejected when the body is empty or the filename is
/// missing.
pub open spec fn spec_input_invalid(filename: Seq<char>, data: Seq<u8>) -> bool {
    data.len() == 0 || filename.len() == 0
}

/// The derived slots of a fresh record once every applicable kind has
/// been enqueued: applicable kinds `Pending`, the rest `NotStarted`.
pub open spec fn spec_initial_enqueued(kind: AssetKind) -> DerivedSet {
    match kind {
        AssetKind::Video => DerivedSet {
            thumbnail: DerivedState::Pending,
            transients: DerivedState::NotStarted,
            waveform: DerivedState::NotStarted,
        },
        AssetKind::Audio => DerivedSet {
            thumbnail: DerivedState::NotStarted,
            transients: DerivedState::Pending,
            waveform: DerivedState::Pending,
        },
    }
}

/// The initial slots above are exactly what the enqueue transition of
/// the state machine produces from `NotStarted` for each applicable
/// kind, with the others untouched.
pub proof fn lemma_initial_enqueued_is_enqueue(kind: AssetKind)
    ensures
        forall|k: DerivedKind|
            #[trigger] spec_initial_enqueued(kind).spec_get(k) == if k.applies_to(kind) {
                spec_enqueue_step(DerivedSet::spec_initial().spec_get(k)).0
            } else {
                DerivedSet::spec_initial().spec_get(k)
            },
{
    assert forall|k: DerivedKind|
        #[trigger] spec_initial_enqueued(kind).spec_get(k) == if k.applies_to(kind) {
            spec_enqueue_step(DerivedSet::spec_initial().spec_get(k)).0
        } else {
            DerivedSet::spec_initial().spec_get(k)
        } by {
        match k {
            DerivedKind::Thumbnail => {},
            DerivedKind::TransientMarkers => {},
            DerivedKind::Waveform => {},
        }
    }
}

/// Executable form of `spec_initial_enqueued`.
fn initial_enqueued(kind: AssetKind) -> (r: DerivedSet)
    ensures
        r == spec_initial_enqueued(kind),
{
    match kind {
        AssetKind::Video => DerivedSet {
            thumbnail: DerivedState::Pending,
            transients: DerivedState::NotStarted,
            waveform: DerivedState::NotStarted,
        },
        AssetKind::Audio => DerivedSet {
            thumbnail: DerivedState::NotStarted,
            transients: DerivedState::Pending,
            waveform: DerivedState::Pending,
        },
    }
}

/// What a successful upload of `data` under `filename` with fresh id
/// `id` does to the service: the original bytes are committed under the
/// original key, and exactly one record is appended — with that id, that
/// kind, the given name and size, an upload time no older than the
/// newest existing record, and every applicable derived kind enqueued.
pub open spec fn upload_ok_post(
    pre: MediaService,
    post: MediaService,
    kind: AssetKind,
    filename: Seq<char>,
    data: Seq<u8>,
    id: AssetId,
) -> bool {
    &&& !spec_contains(pre.records(), id)
    &&& post.blobs_view() == pre.blobs_view().insert(BlobKey::spec_original(kind, id), data)
    &&& post.records().len() == pre.records().len() + 1
    &&& post.records() == pre.records().push(post.records().last())
    &&& ({
        let rec = post.records().last();
        &&& rec.id == id
        &&& rec.kind == kind
        &&& rec.original_filename@ == filename
        &&& rec.size_bytes == data.len()
        &&& rec.storage_path == BlobKey::spec_original(kind, id)
        &&& rec.uploaded_at_ms >= spec_latest(pre.records())
        &&& rec.derived == spec_initial_enqueued(kind)
    })
}

/// The service: blob store and catalog, used together.
pub struct MediaService {
    blobs: BlobStore,
    catalog: Catalog,
}

impl MediaService {
    /// The committed blobs, key to bytes.
    pub closed spec fn blobs_view(self) -> Map<BlobKey, Seq<u8>> {
        self.blobs@
    }

    /// The catalog records, in upload order.
    pub closed spec fn records(self) -> Seq<AssetRecord> {
        self.catalog@
    }

    /// Service invariant: the catalog is well formed; every record's
    /// original bytes are committed; every `Ready` derived slot points
    /// at a committed artifact stored under the derived key of its own
    /// asset and kind.
    pub open spec fn wf(self) -> bool {
        &&& catalog_wf(self.records())
        &&& forall|i: int|
            0 <= i < self.records().len() ==> self.blobs_view().contains_key(
                (#[trigger] self.records()[i]).storage_path,
            )
        &&& forall|i: int, k: DerivedKind|
            0 <= i < self.records().len() ==> match #[trigger] self.records()[i].derived.spec_get(
                k,
            ) {
                DerivedState::Ready { key, produced_at } => key == BlobKey::spec_derived(
                    k,
                    self.records()[i].id,
                ) && self.blobs_view().contains_key(key),
                _ => true,
            }
    }

    /// A new service holds nothing.
    pub fn new() -> (r: MediaService)
        ensures
            r.wf(),
            r.records() == Seq::<AssetRecord>::empty(),
            r.blobs_view() == Map::<BlobKey, Seq<u8>>::empty(),
    {
        MediaService { blobs: BlobStore::new(), catalog: Catalog::new() }
    }

    /// Ingest one original under a caller-supplied id. Success is owed
    /// exactly when the input is valid and the id is fresh: rejects an
    /// empty body or filename with `InvalidInput`, an id already in the
    /// catalog with `Conflict`, and touches nothing on either — all or
    /// nothing. On success the original is committed, the record is
    /// appended, and every applicable derived kind is enqueued, before
    /// returning.
    pub fn save_asset(&mut self, id: AssetId, kind: AssetKind, filename: String, data: Vec<u8>) -> (r:
        Result<(), AppError>)
        requires
            old(self).wf(),
        ensures
            final(self).wf(),
            r == Err::<(), AppError>(AppError::InvalidInput) <==> spec_input_invalid(
                filename@,
                data@,
            ),
            !spec_input_invalid(filename@, data@) ==> (r == Err::<(), AppError>(AppError::Conflict)
                <==> spec_contains(old(self).records(), id)),
            r is Err ==> *final(self) == *old(self),
            r is Ok <==> (!spec_input_invalid(filename@, data@) && !spec_contains(
                old(self).records(),
                id,
            )),
            r is Ok ==> upload_ok_post(*old(self), *final(self), kind, filename@, data@, id),
    {
        if data.len() == 0 || filename.as_str().is_empty() {
            return Err(AppError::InvalidInput);
        }
        if self.catalog.contains_id(id) {
            return Err(AppError::Conflict);
        }
        let t = now_millis();
        let tnow: u64 = if t < 0 {
            0
        } else {
            t as u64
        };
        let latest = self.catalog.latest_ts();
        let ts = if tnow > latest {
            tnow
        } else {
            latest
        };
        let size = data.len() as u64;
        let key = BlobKey::original(kind, id);
        let rec = AssetRecord {
            id,
            kind,
            original_filename: filename,
            size_bytes: size,
            uploaded_at_ms: ts,
            storage_path: key,
            derived: initial_enqueued(kind),
        };
        let ghost grec = rec;
        proof {
            assert(rec.wf()) by {
                assert forall|k: DerivedKind| !k.applies_to(kind) implies rec.derived.spec_get(k)
                    == DerivedState::NotStarted by {
                    match k {
                        DerivedKind::Thumbnail => {},
                        DerivedKind::TransientMarkers => {},
                        DerivedKind::Waveform => {},
                    }
                }
            }
        }
        self.blobs.put(key, data);
        let ghost mid_blobs = self.blobs@;
        let inserted = self.catalog.insert(rec);
        match inserted {
            Ok(()) => {
                proof {
                    let pre = *old(self);
                    let post = *self;
                    assert(post.records() == pre.records().push(grec));
                    assert(post.records().last() == grec);
                    assert forall|i: int|
                        0 <= i < post.records().len() implies post.blobs_view().contains_key(
                        (#[trigger] post.records()[i]).storage_path,
                    ) by {
                        if i < pre.records().len() {
                            assert(post.records()[i] == pre.records()[i]);
                        }
                    }
                    assert forall|i: int, k: DerivedKind|
                        0 <= i < post.records().len() implies match #[trigger] post.records()[i].derived.spec_get(
                        k,
                    ) {
                        DerivedState::Ready { key, produced_at } => key == BlobKey::spec_derived(
                            k,
                            post.records()[i].id,
                        ) && post.blobs_view().contains_key(key),
                        _ => true,
                    } by {
                        if i < pre.records().len() {
                            assert(post.records()[i] == pre.records()[i]);
                        } else {
                            assert(post.records()[i] == grec);
                            match k {
                                DerivedKind::Thumbnail => {},
                                DerivedKind::TransientMarkers => {},
                                DerivedKind::Waveform => {},
                            }
                        }
                    }
                }
                Ok(())
            },
            Err(_) => {
                proof {
                    assert(false);
                }
                Err(AppError::Conflict)
            },
        }
    }

    /// Ingest a video original under a caller-supplied id; see
    /// `save_asset` for the exact success condition.
    pub fn save_video(&mut self, id: AssetId, filename: String, data: Vec<u8>) -> (r: Result<
        (),
        AppError,
    >)
        requires
            old(self).wf(),
        ensures
            final(self).wf(),
            r == Err::<(), AppError>(AppError::InvalidInput) <==> spec_input_invalid(
                filename@,
                data@,
            ),
            r is Err ==> *final(self) == *old(self),
            !spec_input_invalid(filename@, data@) ==> (r == Err::<(), AppError>(AppError::Conflict)
                <==> spec_contains(old(self).records(), id)),
            r is Ok <==> (!spec_input_invalid(filename@, data@) && !spec_contains(
                old(self).records(),
                id,
            )),
            r is Ok ==> upload_ok_post(
                *old(self),
                *final(self),
                AssetKind::Video,
                filename@,
                data@,
                id,
            ),
    {
        self.save_asset(id, AssetKind::Video, filename, data)
    }

    /// Ingest an audio original under a caller-supplied id; see
    /// `save_asset` for the exact success condition.
    pub fn save_audio(&mut self, id: AssetId, filename: String, data: Vec<u8>) -> (r: Result<
        (),
        AppError,
    >)
        requires
            old(self).wf(),
        ensures
            final(self).wf(),
            r == Err::<(), AppError>(AppError::InvalidInput) <==> spec_input_invalid(
                filename@,
                data@,
            ),
            r is Err ==> *final(self) == *old(self),
            !spec_input_invalid(filename@, data@) ==> (r == Err::<(), AppError>(AppError::Conflict)
                <==> spec_contains(old(self).records(), id)),
            r is Ok <==> (!spec_input_invalid(filename@, data@) && !spec_contains(
                old(self).records(),
                id,
            )),
            r is Ok ==> upload_ok_post(
                *old(self),
                *final(self),
                AssetKind::Audio,
                filename@,
                data@,
                id,
            ),
    {
        self.save_asset(id, AssetKind::Audio, filename, data)
    }

    /// Ingest one original under a freshly generated id. `InvalidInput`
    /// exactly on an empty body or filename; `Conflict` only if the
    /// fresh id collides with an existing record; otherwise success, as
    /// `save_asset` promises.
    pub fn upload(&mut self, kind: AssetKind, filename: String, data: Vec<u8>) -> (r: Result<
        AssetId,
        AppError,
    >)
        requires
            old(self).wf(),
        ensures
            final(self).wf(),
            r == Err::<AssetId, AppError>(AppError::InvalidInput) <==> spec_input_invalid(
                filename@,
                data@,
            ),
            r is Err ==> *final(self) == *old(self),
            !spec_input_invalid(filename@, data@) ==> (r is Ok || r == Err::<AssetId, AppError>(
                AppError::Conflict,
            )),
            r matches Ok(id) ==> upload_ok_post(*old(self), *final(self), kind, filename@, data@, id),
    {
        let id = fresh_asset_id();
        match self.save_asset(id, kind, filename, data) {
            Ok(()) => Ok(id),
            Err(e) => Err(e),
        }
    }

    /// Ingest a video upload, reporting id, name, size and a message.
    pub fn upload_video(&mut self, filename: String, data: Vec<u8>) -> (r: Result<
        UploadResponse,
        AppError,
    >)
        requires
            old(self).wf(),
        ensures
            final(self).wf(),
            r == Err::<UploadResponse, AppError>(AppError::InvalidInput) <==> spec_input_invalid(
                filename@,
                data@,
            ),
            r is Err ==> *final(self) == *old(self),
            !spec_input_invalid(filename@, data@) ==> (r is Ok || r == Err::<
                UploadResponse,
                AppError,
            >(AppError::Conflict)),
            r matches Ok(resp) ==> upload_ok_post(
                *old(self),
                *final(self),
                AssetKind::Video,
                filename@,
                data@,
                resp.id,
            ) && resp.filename@ == filename@ && resp.size == data@.len() && resp.message@
                == "Video uploaded successfully"@,
    {
        let fname = filename.clone();
        let size = data.len() as u64;
        match self.upload(AssetKind::Video, filename, data) {
            Ok(id) => Ok(
                UploadResponse {
                    id,
                    filename: fname,
                    size,
                    message: "Video uploaded successfully".to_owned(),
                },
            ),
            Err(e) => Err(e),
        }
    }

    /// Ingest an audio upload, reporting id, name, size and a message.
    pub fn upload_audio(&mut self, filename: String, data: Vec<u8>) -> (r: Result<
        UploadResponse,
        AppError,
    >)
        requires
            old(self).wf(),
        ensures
            final(self).wf(),
            r == Err::<UploadResponse, AppError>(AppError::InvalidInput) <==> spec_input_invalid(
                filename@,
                data@,
            ),
            r is Err ==> *final(self) == *old(self),
            !spec_input_invalid(filename@, data@) ==> (r is Ok || r == Err::<
                UploadResponse,
                AppError,
            >(AppError::Conflict)),
            r matches Ok(resp) ==> upload_ok_post(
                *old(self),
                *final(self),
                AssetKind::Audio,
                filename@,
                data@,
                resp.id,
            ) && resp.filename@ == filename@ && resp.size == data@.len() && resp.message@
                == "Audio uploaded successfully"@,
    {
        let fname = filename.clone();
        let size = data.len() as u64;
        match self.upload(AssetKind::Audio, filename, data) {
            Ok(id) => Ok(
                UploadResponse {
                    id,
                    filename: fname,
                    size,
                    message: "Audio uploaded successfully".to_owned(),
                },
            ),
            Err(e) => Err(e),
        }
    }

    /// What a read of an original returns: the committed bytes of the
    /// record with this id, provided it has the asked-for kind.
    pub open spec fn spec_get_original(self, kind: AssetKind, id: AssetId) -> Option<Seq<u8>> {
        match spec_get(self.records(), id) {
            Some(rec) => if rec.kind == kind {
                Some(self.blobs_view()[rec.storage_path])
            } else {
                None
            },
            None => None,
        }
    }

    /// Read the original bytes of an asset of the given kind. `NotFound`
    /// if and only if no asset of that kind has the id.
    pub fn get_original(&self, kind: AssetKind, id: AssetId) -> (r: Result<Vec<u8>, AppError>)
        requires
            self.wf(),
        ensures
            match r {
                Ok(bytes) => self.spec_get_original(kind, id) == Some(bytes@),
                Err(e) => e == AppError::NotFound && self.spec_get_original(kind, id) is None,
            },
    {
        proof {
            lemma_find_from(self.records(), id, 0);
        }
        let rec = match self.catalog.get(id) {
            Some(rec) => rec,
            None => {
                return Err(AppError::NotFound);
            },
        };
        if rec.kind != kind {
            return Err(AppError::NotFound);
        }
        proof {
            let i = spec_index_of(self.records(), id)->Some_0;
            assert(self.records()[i] == rec);
        }
        match self.blobs.get(rec.storage_path) {
            Some(bytes) => Ok(bytes),
            None => {
                proof {
                    assert(false);
                }
                Err(AppError::NotFound)
            },
        }
    }

    /// Read the original bytes of a video.
    pub fn get_video(&self, id: AssetId) -> (r: Result<Vec<u8>, AppError>)
        requires
            self.wf(),
        ensures
            match r {
                Ok(bytes) => self.spec_get_original(AssetKind::Video, id) == Some(bytes@),
                Err(e) => e == AppError::NotFound && self.spec_get_original(AssetKind::Video, id)
                    is None,
            },
    {
        self.get_original(AssetKind::Video, id)
    }

    /// Read the original bytes of an audio clip.
    pub fn get_audio(&self, id: AssetId) -> (r: Result<Vec<u8>, AppError>)
        requires
            self.wf(),
        ensures
            match r {
                Ok(bytes) => self.spec_get_original(AssetKind::Audio, id) == Some(bytes@),
                Err(e) => e == AppError::NotFound && self.spec_get_original(AssetKind::Audio, id)
                    is None,
            },
    {
        self.get_original(AssetKind::Audio, id)
    }

    /// The blob-store key an original of the given kind is stored under,
    /// `NotFound` if and only if no asset of that kind has the id.
    pub fn get_path(&self, kind: AssetKind, id: AssetId) -> (r: Result<BlobKey, AppError>)
        ensures
            match r {
                Ok(key) => spec_get(self.records(), id) matches Some(rec) && rec.kind == kind
                    && key == rec.storage_path,
                Err(e) => e == AppError::NotFound && !(spec_get(self.records(), id) matches Some(
                    rec,
                ) && rec.kind == kind),
            },
    {
        match self.catalog.get(id) {
            Some(rec) => if rec.kind == kind {
                Ok(rec.storage_path)
            } else {
                Err(AppError::NotFound)
            },
            None => Err(AppError::NotFound),
        }
    }

    /// Storage key of a video original; see `get_path`.
    pub fn get_video_path(&self, id: AssetId) -> (r: Result<BlobKey, AppError>)
        ensures
            match r {
                Ok(key) => spec_get(self.records(), id) matches Some(rec) && rec.kind
                    == AssetKind::Video && key == rec.storage_path,
                Err(e) => e == AppError::NotFound && !(spec_get(self.records(), id) matches Some(
                    rec,
                ) && rec.kind == AssetKind::Video),
            },
    {
        self.get_path(AssetKind::Video, id)
    }

    /// Storage key of an audio original; see `get_path`.
    pub fn get_audio_path(&self, id: AssetId) -> (r: Result<BlobKey, AppError>)
        ensures
            match r {
                Ok(key) => spec_get(self.records(), id) matches Some(rec) && rec.kind
                    == AssetKind::Audio && key == rec.storage_path,
                Err(e) => e == AppError::NotFound && !(spec_get(self.records(), id) matches Some(
                    rec,
                ) && rec.kind == AssetKind::Audio),
            },
    {
        self.get_path(AssetKind::Audio, id)
    }

    /// The records an asset-kind listing returns, in upload order.
    pub open spec fn spec_list(self, kind: AssetKind) -> Seq<AssetRecord> {
        self.records().filter(|rec: AssetRecord| rec.kind == kind)
    }

    /// All records of one kind, ordered by upload time ascending.
    pub fn list(&self, kind: AssetKind) -> (r: Vec<AssetRecord>)
        ensures
            r@ == self.spec_list(kind),
    {
        self.catalog.list(kind)
    }

    /// List the video assets as summaries, in upload order.
    pub fn list_videos(&self) -> (r: Vec<VideoInfo>)
        ensures
            r@ == self.spec_list(AssetKind::Video).map_values(
                |rec: AssetRecord| spec_video_info_of(rec),
            ),
    {
        let recs = self.catalog.list(AssetKind::Video);
        let ghost all = recs@;
        let mut out: Vec<VideoInfo> = Vec::new();
        let mut i: usize = 0;
        while i < recs.len()
            invariant
                i <= all.len(),
                all == recs@,
                out@ == all.take(i as int).map_values(|rec: AssetRecord| spec_video_info_of(rec)),
            decreases all.len() - i,
        {
            out.push(video_info_of(&recs[i]));
            proof {
                assert(out@ =~= all.take(i + 1).map_values(
                    |rec: AssetRecord| spec_video_info_of(rec),
                ));
            }
            i = i + 1;
        }
        proof {
            assert(all.take(all.len() as int) == all);
        }
        out
    }

    /// List the audio assets as summaries, in upload order.
    pub fn list_audio(&self) -> (r: Vec<AudioInfo>)
        ensures
            r@ == self.spec_list(AssetKind::Audio).map_values(
                |rec: AssetRecord| spec_audio_info_of(rec),
            ),
    {
        let recs = self.catalog.list(AssetKind::Audio);
        let ghost all = recs@;
        let mut out: Vec<AudioInfo> = Vec::new();
        let mut i: usize = 0;
        while i < recs.len()
            invariant
                i <= all.len(),
                all == recs@,
                out@ == all.take(i as int).map_values(|rec: AssetRecord| spec_audio_info_of(rec)),
            decreases all.len() - i,
        {
            out.push(audio_info_of(&recs[i]));
            proof {
                assert(out@ =~= all.take(i + 1).map_values(
                    |rec: AssetRecord| spec_audio_info_of(rec),
                ));
            }
            i = i + 1;
        }
        proof {
            assert(all.take(all.len() as int) == all);
        }
        out
    }

    /// Summary of one video asset. `NotFound` if and only if no video
    /// has the id.
    pub fn get_video_info(&self, id: AssetId) -> (r: Result<VideoInfo, AppError>)
        ensures
            match r {
                Ok(info) => spec_get(self.records(), id) matches Some(rec) && rec.kind
                    == AssetKind::Video && info == spec_video_info_of(rec),
                Err(e) => e == AppError::NotFound && !(spec_get(self.records(), id) matches Some(
                    rec,
                ) && rec.kind == AssetKind::Video),
            },
    {
        match self.catalog.get(id) {
            Some(rec) => if rec.kind == AssetKind::Video {
                Ok(video_info_of(&rec))
            } else {
                Err(AppError::NotFound)
            },
            None => Err(AppError::NotFound),
        }
    }

    /// Summary of one audio asset. `NotFound` if and only if no audio
    /// clip has the id.
    pub fn get_audio_info(&self, id: AssetId) -> (r: Result<AudioInfo, AppError>)
        ensures
            match r {
                Ok(info) => spec_get(self.records(), id) matches Some(rec) && rec.kind
                    == AssetKind::Audio && info == spec_audio_info_of(rec),
                Err(e) => e == AppError::NotFound && !(spec_get(self.records(), id) matches Some(
                    rec,
                ) && rec.kind == AssetKind::Audio),
            },
    {
        match self.catalog.get(id) {
            Some(rec) => if rec.kind == AssetKind::Audio {
                Ok(audio_info_of(&rec))
            } else {
                Err(AppError::NotFound)
            },
            None => Err(AppError::NotFound),
        }
    }

    /// Read a derived artifact without blocking on its generation:
    /// `NotFound` if and only if the id is unknown or the derived kind
    /// does not apply to the asset's kind (a missing artifact); otherwise
    /// the slot decides — a status to poll on, the failure reason, or the
    /// bytes.
    pub fn get_derived(&self, id: AssetId, kind: DerivedKind) -> (r: Result<DerivedFetch, AppError>)
        requires
            self.wf(),
        ensures
            match spec_get(self.records(), id) {
                None => r == Err::<DerivedFetch, AppError>(AppError::NotFound),
                Some(rec) => if !kind.applies_to(rec.kind) {
                    r == Err::<DerivedFetch, AppError>(AppError::NotFound)
                } else {
                    match rec.derived.spec_get(kind) {
                        DerivedState::NotStarted => r == Ok::<DerivedFetch, AppError>(
                            DerivedFetch::NotStarted,
                        ),
                        DerivedState::Pending => r == Ok::<DerivedFetch, AppError>(
                            DerivedFetch::Pending,
                        ),
                        DerivedState::Failed { reason, failed_at } => r == Ok::<
                            DerivedFetch,
                            AppError,
                        >(DerivedFetch::Failed { reason }),
                        DerivedState::Ready { key, produced_at } => r matches Ok(
                            DerivedFetch::Ready { bytes },
                        ) && bytes@ == self.blobs_view()[key],
                    }
                },
            },
    {
        proof {
            lemma_find_from(self.records(), id, 0);
        }
        let rec = match self.catalog.get(id) {
            Some(rec) => rec,
            None => {
                return Err(AppError::NotFound);
            },
        };
        if !kind.applicable(rec.kind) {
            return Err(AppError::NotFound);
        }
        proof {
            let i = spec_index_of(self.records(), id)->Some_0;
            assert(self.records()[i] == rec);
        }
        match rec.derived.get(kind) {
            DerivedState::NotStarted => Ok(DerivedFetch::NotStarted),
            DerivedState::Pending => Ok(DerivedFetch::Pending),
            DerivedState::Failed { reason, failed_at } => Ok(DerivedFetch::Failed { reason }),
            DerivedState::Ready { key, produced_at } => match self.blobs.get(key) {
                Some(bytes) => Ok(DerivedFetch::Ready { bytes }),
                None => {
                    proof {
                        assert(false);
                    }
                    Err(AppError::NotFound)
                },
            },
        }
    }

    /// Read the transient analysis of an audio clip: `NotFound` if and
    /// only if no stored audio clip has the id; see `get_derived`.
    pub fn get_audio_analysis(&self, id: AssetId) -> (r: Result<DerivedFetch, AppError>)
        requires
            self.wf(),
        ensures
            match spec_get(self.records(), id) {
                None => r == Err::<DerivedFetch, AppError>(AppError::NotFound),
                Some(rec) => if rec.kind != AssetKind::Audio {
                    r == Err::<DerivedFetch, AppError>(AppError::NotFound)
                } else {
                    match rec.derived.spec_get(DerivedKind::TransientMarkers) {
                        DerivedState::NotStarted => r == Ok::<DerivedFetch, AppError>(
                            DerivedFetch::NotStarted,
                        ),
                        DerivedState::Pending => r == Ok::<DerivedFetch, AppError>(
                            DerivedFetch::Pending,
                        ),
                        DerivedState::Failed { reason, failed_at } => r == Ok::<
                            DerivedFetch,
                            AppError,
                        >(DerivedFetch::Failed { reason }),
                        DerivedState::Ready { key, produced_at } => r matches Ok(
                            DerivedFetch::Ready { bytes },
                        ) && bytes@ == self.blobs_view()[key],
                    }
                },
            },
    {
        self.get_derived(id, DerivedKind::TransientMarkers)
    }

    /// What a thumbnail request serves: the committed artifact when the
    /// slot is `Ready`, the placeholder in every other case — an unknown
    /// id, a pending job, a failed job.
    pub open spec fn spec_thumbnail_response(self, id: AssetId) -> Seq<u8> {
        match spec_get(self.records(), id) {
            Some(rec) => match rec.derived.spec_get(DerivedKind::Thumbnail) {
                DerivedState::Ready { key, produced_at } => self.blobs_view()[key],
                _ => spec_placeholder_jpeg(),
            },
            None => spec_placeholder_jpeg(),
        }
    }

    /// Serve a thumbnail. Total: an unknown id, a pending job and a
    /// failed job all yield the deterministic placeholder JPEG, never an
    /// error — thumbnail absence must not block serving an asset.
    pub fn get_thumbnail(&self, id: AssetId) -> (r: Vec<u8>)
        requires
            self.wf(),
        ensures
            r@ == self.spec_thumbnail_response(id),
    {
        proof {
            lemma_find_from(self.records(), id, 0);
        }
        let rec = match self.catalog.get(id) {
            Some(rec) => rec,
            None => {
                return generate_placeholder_thumbnail();
            },
        };
        proof {
            let i = spec_index_of(self.records(), id)->Some_0;
            assert(self.records()[i] == rec);
        }
        match rec.derived.get(DerivedKind::Thumbnail) {
            DerivedState::Ready { key, produced_at } => match self.blobs.get(key) {
                Some(bytes) => bytes,
                None => {
                    proof {
                        assert(false);
                    }
                    generate_placeholder_thumbnail()
                },
            },
            _ => generate_placeholder_thumbnail(),
        }
    }
}

/// What a finished derived-asset job leaves behind: the artifact bytes
/// committed under the derived key of the asset, and the record's slot
/// `Ready` pointing at that key (produced at some clock reading).
pub open spec fn job_done_post(
    pre: MediaService,
    post: MediaService,
    id: AssetId,
    kind: DerivedKind,
    artifact: Seq<u8>,
) -> bool {
    &&& spec_contains(pre.records(), id)
    &&& ({
        let i = spec_index_of(pre.records(), id)->Some_0;
        let rec = pre.records()[i];
        let key = BlobKey::spec_derived(kind, id);
        &&& post.blobs_view() == pre.blobs_view().insert(key, artifact)
        &&& exists|at: u64|
            post.records() == pre.records().update(
                i,
                (AssetRecord {
                    derived: rec.derived.spec_set(
                        kind,
                        (DerivedState::Ready { key, produced_at: at }),
                    ),
                    ..rec
                }),
            )
    })
}

/// One record's derived slot changed, everything else framed: the
/// service invariant survives provided a new `Ready` slot points at a
/// committed artifact under its own derived key.
proof fn lemma_wf_preserved(
    pre: MediaService,
    post: MediaService,
    idx: int,
    kind: DerivedKind,
    st2: DerivedState,
)
    requires
        pre.wf(),
        catalog_wf(post.records()),
        0 <= idx < pre.records().len(),
        post.records() == pre.records().update(
            idx,
            (AssetRecord {
                derived: pre.records()[idx].derived.spec_set(kind, st2),
                ..pre.records()[idx]
            }),
        ),
        forall|bk: BlobKey|
            pre.blobs_view().contains_key(bk) ==> post.blobs_view().contains_key(bk),
        match st2 {
            DerivedState::Ready { key, produced_at } => key == BlobKey::spec_derived(
                kind,
                pre.records()[idx].id,
            ) && post.blobs_view().contains_key(key),
            _ => true,
        },
    ensures
        post.wf(),
{
    pre.records()[idx].derived.lemma_set_frame(kind, st2);
    assert forall|i: int|
        0 <= i < post.records().len() implies post.blobs_view().contains_key(
        (#[trigger] post.records()[i]).storage_path,
    ) by {
        if i != idx {
            assert(post.records()[i] == pre.records()[i]);
        }
        assert(pre.blobs_view().contains_key(pre.records()[i].storage_path));
    }
    assert forall|i: int, k: DerivedKind|
        0 <= i < post.records().len() implies match #[trigger] post.records()[i].derived.spec_get(
        k,
    ) {
        DerivedState::Ready { key, produced_at } => key == BlobKey::spec_derived(
            k,
            post.records()[i].id,
        ) && post.blobs_view().contains_key(key),
        _ => true,
    } by {
        if i != idx {
            assert(post.records()[i] == pre.records()[i]);
            match pre.records()[i].derived.spec_get(k) {
                DerivedState::Ready { key, produced_at } => {
                    assert(pre.blobs_view().contains_key(key));
                },
                _ => {},
            }
        } else {
            if k != kind {
                assert(post.records()[i].derived.spec_get(k) == pre.records()[i].derived.spec_get(
                    k,
                ));
                match pre.records()[i].derived.spec_get(k) {
                    DerivedState::Ready { key, produced_at } => {
                        assert(pre.blobs_view().contains_key(key));
                    },
                    _ => {},
                }
            }
        }
    }
}

impl MediaService {
    /// Ask for a derived-asset job to be started; the catalog's
    /// compare-and-transition decides. While a job is `Pending`, further
    /// calls are no-ops reporting `AlreadyPending`, so concurrent
    /// duplicate requests collapse to one `Started`.
    pub fn enqueue(&mut self, id: AssetId, kind: DerivedKind) -> (r: Result<
        EnqueueOutcome,
        AppError,
    >)
        requires
            old(self).wf(),
        ensures
            final(self).wf(),
            final(self).blobs_view() == old(self).blobs_view(),
            r is Err ==> final(self).records() == old(self).records(),
            r == Err::<EnqueueOutcome, AppError>(AppError::NotFound) <==> !spec_contains(
                old(self).records(),
                id,
            ),
            match spec_get(old(self).records(), id) {
                Some(rec) => {
                    if kind.applies_to(rec.kind) {
                        ({
                            let i = spec_index_of(old(self).records(), id)->Some_0;
                            let (st2, out) = spec_enqueue_step(rec.derived.spec_get(kind));
                            r == Ok::<EnqueueOutcome, AppError>(out) && final(self).records()
                                == old(self).records().update(
                                i,
                                (AssetRecord { derived: rec.derived.spec_set(kind, st2), ..rec }),
                            )
                        })
                    } else {
                        r == Err::<EnqueueOutcome, AppError>(AppError::InvalidInput)
                    }
                },
                None => r == Err::<EnqueueOutcome, AppError>(AppError::NotFound),
            },
    {
        let ghost pre = *self;
        proof {
            lemma_find_from(pre.records(), id, 0);
        }
        let r = self.catalog.try_enqueue(id, kind);
        proof {
            if r is Ok {
                let i = spec_index_of(pre.records(), id)->Some_0;
                let rec = pre.records()[i];
                let (st2, out) = spec_enqueue_step(rec.derived.spec_get(kind));
                match st2 {
                    DerivedState::Ready { key, produced_at } => {
                        assert(st2 == rec.derived.spec_get(kind));
                    },
                    _ => {},
                }
                lemma_wf_preserved(pre, *self, i, kind, st2);
            }
        }
        r
    }

    /// Run the thumbnail job for one asset: if (and only if) the slot is
    /// `Pending`, commit the deterministic placeholder JPEG as the
    /// artifact and publish it `Ready`. Extraction failure never
    /// surfaces: the fallback artifact is served instead. `NotFound` if
    /// and only if the id is unknown; any other state is a no-op.
    pub fn run_thumbnail_job(&mut self, id: AssetId) -> (r: Result<bool, AppError>)
        requires
            old(self).wf(),
        ensures
            final(self).wf(),
            r is Err ==> r == Err::<bool, AppError>(AppError::NotFound) && *final(self) == *old(
                self,
            ),
            r == Err::<bool, AppError>(AppError::NotFound) <==> !spec_contains(
                old(self).records(),
                id,
            ),
            match spec_get(old(self).records(), id) {
                Some(rec) => {
                    if rec.derived.spec_get(DerivedKind::Thumbnail) is Pending {
                        r == Ok::<bool, AppError>(true) && job_done_post(
                            *old(self),
                            *final(self),
                            id,
                            DerivedKind::Thumbnail,
                            spec_placeholder_jpeg(),
                        )
                    } else {
                        r == Ok::<bool, AppError>(false) && *final(self) == *old(self)
                    }
                },
                None => r is Err,
            },
    {
        let ghost pre = *self;
        proof {
            lemma_find_from(pre.records(), id, 0);
        }
        let rec = match self.catalog.get(id) {
            Some(rec) => rec,
            None => {
                return Err(AppError::NotFound);
            },
        };
        let pending = match rec.derived.get(DerivedKind::Thumbnail) {
            DerivedState::Pending => true,
            _ => false,
        };
        if !pending {
            return Ok(false);
        }
        let art = generate_placeholder_thumbnail();
        let key = BlobKey::derived(DerivedKind::Thumbnail, id);
        self.blobs.put(key, art);
        let t = now_millis();
        let at: u64 = if t < 0 {
            0
        } else {
            t as u64
        };
        let sr = self.catalog.set_ready(id, DerivedKind::Thumbnail, key, at);
        proof {
            let i = spec_index_of(pre.records(), id)->Some_0;
            let st2 = DerivedState::Ready { key, produced_at: at };
            assert(self.records() == pre.records().update(
                i,
                (AssetRecord { derived: rec.derived.spec_set(DerivedKind::Thumbnail, st2), ..rec }),
            ));
            lemma_wf_preserved(pre, *self, i, DerivedKind::Thumbnail, st2);
        }
        match sr {
            Ok(true) => Ok(true),
            _ => {
                proof {
                    assert(false);
                }
                Ok(false)
            },
        }
    }

    /// Run the waveform job for one asset: if (and only if) the slot is
    /// `Pending`, compute the waveform envelope of the committed
    /// original, commit it as the artifact and publish it `Ready`.
    /// `NotFound` if and only if the id is unknown; any other state is a
    /// no-op.
    pub fn run_waveform_job(&mut self, id: AssetId) -> (r: Result<bool, AppError>)
        requires
            old(self).wf(),
        ensures
            final(self).wf(),
            r is Err ==> r == Err::<bool, AppError>(AppError::NotFound) && *final(self) == *old(
                self,
            ),
            r == Err::<bool, AppError>(AppError::NotFound) <==> !spec_contains(
                old(self).records(),
                id,
            ),
            match spec_get(old(self).records(), id) {
                Some(rec) => {
                    if rec.derived.spec_get(DerivedKind::Waveform) is Pending {
                        r == Ok::<bool, AppError>(true) && job_done_post(
                            *old(self),
                            *final(self),
                            id,
                            DerivedKind::Waveform,
                            spec_envelope(
                                old(self).blobs_view()[rec.storage_path],
                                WAVEFORM_WINDOW as int,
                            ),
                        )
                    } else {
                        r == Ok::<bool, AppError>(false) && *final(self) == *old(self)
                    }
                },
                None => r is Err,
            },
    {
        let ghost pre = *self;
        proof {
            lemma_find_from(pre.records(), id, 0);
        }
        let rec = match self.catalog.get(id) {
            Some(rec) => rec,
            None => {
                return Err(AppError::NotFound);
            },
        };
        let pending = match rec.derived.get(DerivedKind::Waveform) {
            DerivedState::Pending => true,
            _ => false,
        };
        if !pending {
            return Ok(false);
        }
        proof {
            let i = spec_index_of(pre.records(), id)->Some_0;
            assert(pre.records()[i] == rec);
        }
        let orig = match self.blobs.get(rec.storage_path) {
            Some(b) => b,
            None => {
                proof {
                    assert(false);
                }
                return Err(AppError::NotFound);
            },
        };
        let art = analyze_audio_waveform(&orig, WAVEFORM_WINDOW);
        let key = BlobKey::derived(DerivedKind::Waveform, id);
        self.blobs.put(key, art);
        let t = now_millis();
        let at: u64 = if t < 0 {
            0
        } else {
            t as u64
        };
        let sr = self.catalog.set_ready(id, DerivedKind::Waveform, key, at);
        proof {
            let i = spec_index_of(pre.records(), id)->Some_0;
            let st2 = DerivedState::Ready { key, produced_at: at };
            assert(self.records() == pre.records().update(
                i,
                (AssetRecord { derived: rec.derived.spec_set(DerivedKind::Waveform, st2), ..rec }),
            ));
            lemma_wf_preserved(pre, *self, i, DerivedKind::Waveform, st2);
        }
        match sr {
            Ok(true) => Ok(true),
            _ => {
                proof {
                    assert(false);
                }
                Ok(false)
            },
        }
    }

    /// Record a failed derived-asset job: the failure transition, with
    /// the given human-readable reason (a timed-out job reports
    /// "timeout"). `Ok(true)` and the `Failed` state exactly when a job
    /// was `Pending`; any other state is a no-op reported as `Ok(false)`.
    pub fn fail_job(&mut self, id: AssetId, kind: DerivedKind, reason: String) -> (r: Result<
        bool,
        AppError,
    >)
        requires
            old(self).wf(),
        ensures
            final(self).wf(),
            final(self).blobs_view() == old(self).blobs_view(),
            r is Err ==> r == Err::<bool, AppError>(AppError::NotFound) && final(self).records()
                == old(self).records(),
            r == Err::<bool, AppError>(AppError::NotFound) <==> !spec_contains(
                old(self).records(),
                id,
            ),
            match spec_get(old(self).records(), id) {
                Some(rec) => {
                    if rec.derived.spec_get(kind) is Pending {
                        r == Ok::<bool, AppError>(true) && ({
                            let i = spec_index_of(old(self).records(), id)->Some_0;
                            exists|at: u64|
                                final(self).records() == old(self).records().update(
                                    i,
                                    (AssetRecord {
                                        derived: rec.derived.spec_set(
                                            kind,
                                            (DerivedState::Failed { reason, failed_at: at }),
                                        ),
                                        ..rec
                                    }),
                                )
                        })
                    } else {
                        r == Ok::<bool, AppError>(false) && final(self).records() == old(
                            self,
                        ).records()
                    }
                },
                None => r is Err,
            },
    {
        let ghost pre = *self;
        proof {
            lemma_find_from(pre.records(), id, 0);
        }
        let t = now_millis();
        let at: u64 = if t < 0 {
            0
        } else {
            t as u64
        };
        let ghost greason = reason;
        let sf = self.catalog.set_failed(id, kind, reason, at);
        proof {
            if sf is Ok {
                let i = spec_index_of(pre.records(), id)->Some_0;
                let rec = pre.records()[i];
                let (st2, moved) = crate::catalog::spec_fail_step(
                    rec.derived.spec_get(kind),
                    greason,
                    at,
                );
                lemma_wf_preserved(pre, *self, i, kind, st2);
                if !moved {
                    rec.derived.lemma_set_frame(kind, st2);
                    assert(rec.derived.spec_set(kind, st2) =~= rec.derived);
                    assert(self.records() =~= pre.records());
                }
            }
        }
        sf
    }

    /// Analyze an audio clip's transients at the given sensitivity and
    /// record the result: the marker artifact is committed and the slot
    /// published `Ready`. `NotFound` if and only if no stored audio clip
    /// has the id; `InvalidInput` if and only if the clip exists and the
    /// sensitivity is out of range; success is owed on every stored audio
    /// id with an in-range sensitivity; errors touch nothing.
    pub fn analyze_transients(&mut self, id: AssetId, sensitivity_mil: u32) -> (r: Result<
        AudioAnalysis,
        AppError,
    >)
        requires
            old(self).wf(),
        ensures
            final(self).wf(),
            r == Err::<AudioAnalysis, AppError>(AppError::NotFound) <==> !(spec_get(
                old(self).records(),
                id,
            ) matches Some(rec) && rec.kind == AssetKind::Audio),
            (spec_get(old(self).records(), id) matches Some(rec) && rec.kind == AssetKind::Audio
                && sensitivity_mil > SENSITIVITY_SCALE) <==> r == Err::<AudioAnalysis, AppError>(
                AppError::InvalidInput,
            ),
            (spec_get(old(self).records(), id) matches Some(rec) && rec.kind == AssetKind::Audio
                && sensitivity_mil <= SENSITIVITY_SCALE) ==> r is Ok,
            r is Err ==> *final(self) == *old(self),
            r matches Ok(a) ==> ({
                &&& a.id == id
                &&& a.duration_ms == DEFAULT_DURATION_MS
                &&& a.sample_rate == DEFAULT_SAMPLE_RATE
                &&& a.markers@ == spec_markers(DEFAULT_DURATION_MS, sensitivity_mil)
                &&& a.peak_frequencies@ == seq![60u32, 120u32, 240u32, 480u32]
                &&& job_done_post(
                    *old(self),
                    *final(self),
                    id,
                    DerivedKind::TransientMarkers,
                    spec_encoded_markers(spec_markers(DEFAULT_DURATION_MS, sensitivity_mil)),
                )
            }),
    {
        let ghost pre = *self;
        proof {
            lemma_find_from(pre.records(), id, 0);
        }
        let rec = match self.catalog.get(id) {
            Some(rec) => rec,
            None => {
                return Err(AppError::NotFound);
            },
        };
        let audio = match rec.kind {
            AssetKind::Audio => true,
            AssetKind::Video => false,
        };
        if !audio {
            return Err(AppError::NotFound);
        }
        if sensitivity_mil > SENSITIVITY_SCALE {
            return Err(AppError::InvalidInput);
        }
        let enq = self.catalog.try_enqueue(id, DerivedKind::TransientMarkers);
        let ghost mid = *self;
        proof {
            assert(enq is Ok);
            lemma_find_from(mid.records(), id, 0);
            crate::catalog::lemma_find_from_same_ids(pre.records(), mid.records(), id, 0);
        }
        let markers = transient_markers(DEFAULT_DURATION_MS, sensitivity_mil);
        let art = encode_markers(&markers);
        let key = BlobKey::derived(DerivedKind::TransientMarkers, id);
        self.blobs.put(key, art);
        let t = now_millis();
        let at: u64 = if t < 0 {
            0
        } else {
            t as u64
        };
        let sr = self.catalog.set_ready(id, DerivedKind::TransientMarkers, key, at);
        proof {
            let i = spec_index_of(pre.records(), id)->Some_0;
            let kd = DerivedKind::TransientMarkers;
            let st0 = rec.derived.spec_get(kd);
            let (st1, out1) = spec_enqueue_step(st0);
            let r1 = (AssetRecord { derived: rec.derived.spec_set(kd, st1), ..rec });
            assert(mid.records() == pre.records().update(i, r1));
            rec.derived.lemma_set_frame(kd, st1);
            let (st2, moved2) = crate::catalog::spec_complete_step(st1, key, at);
            let r2 = (AssetRecord { derived: r1.derived.spec_set(kd, st2), ..r1 });
            assert(self.records() == mid.records().update(i, r2));
            assert(self.records() =~= pre.records().update(i, r2));
            if st1 is Pending {
                assert(st2 == DerivedState::Ready { key, produced_at: at });
                assert(r1.derived.spec_set(kd, st2) =~= rec.derived.spec_set(kd, st2));
                lemma_wf_preserved(pre, *self, i, kd, st2);
            } else {
                assert(st0 is Ready);
                match st0 {
                    DerivedState::Ready { key: k0, produced_at: a0 } => {
                        assert(k0 == BlobKey::spec_derived(kd, rec.id));
                        assert(st2 == st0);
                        assert(r1.derived.spec_set(kd, st2) =~= rec.derived.spec_set(
                            kd,
                            (DerivedState::Ready { key, produced_at: a0 }),
                        ));
                        lemma_wf_preserved(pre, *self, i, kd, st2);
                    },
                    _ => {
                        assert(false);
                    },
                }
            }
        }
        Ok(
            AudioAnalysis {
                id,
                markers,
                duration_ms: DEFAULT_DURATION_MS,
                sample_rate: DEFAULT_SAMPLE_RATE,
                peak_frequencies: default_peaks(),
            },
        )
    }
}

/// The peak-frequency bins the analyzer reports, in hertz.
fn default_peaks() -> (r: Vec<u32>)
    ensures
        r@ == seq![60u32, 120u32, 240u32, 480u32],
{
    let mut v: Vec<u32> = Vec::new();
    v.push(60);
    v.push(120);
    v.push(240);
    v.push(480);
    proof {
        assert(v@ =~= seq![60u32, 120u32, 240u32, 480u32]);
    }
    v
}

/// The video summary a record yields.
pub open spec fn spec_video_info_of(rec: AssetRecord) -> VideoInfo {
    VideoInfo {
        id: rec.id,
        filename: rec.original_filename,
        size: rec.size_bytes,
        uploaded_at_ms: rec.uploaded_at_ms,
        thumbnail: rec.derived.thumbnail,
    }
}

/// Executable form of `spec_video_info_of`.
pub fn video_info_of(rec: &AssetRecord) -> (r: VideoInfo)
    ensures
        r == spec_video_info_of(*rec),
{
    VideoInfo {
        id: rec.id,
        filename: rec.original_filename.clone(),
        size: rec.size_bytes,
        uploaded_at_ms: rec.uploaded_at_ms,
        thumbnail: rec.derived.thumbnail.duplicate(),
    }
}

/// The audio summary a record yields.
pub open spec fn spec_audio_info_of(rec: AssetRecord) -> AudioInfo {
    AudioInfo {
        id: rec.id,
        filename: rec.original_filename,
        size: rec.size_bytes,
        uploaded_at_ms: rec.uploaded_at_ms,
    }
}

/// Executable form of `spec_audio_info_of`.
pub fn audio_info_of(rec: &AssetRecord) -> (r: AudioInfo)
    ensures
        r == spec_audio_info_of(*rec),
{
    AudioInfo {
        id: rec.id,
        filename: rec.original_filename.clone(),
        size: rec.size_bytes,
        uploaded_at_ms: rec.uploaded_at_ms,
    }
}

} // verus!

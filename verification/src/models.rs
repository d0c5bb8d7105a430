//! Data model: asset kinds, derived-asset kinds and states, records,
//! and the error taxonomy of the service.

use vstd::prelude::*;

verus! {

/// Identifier of an asset: an opaque 128-bit value (UUID-class), generated
/// fresh at ingestion time and used as the primary key everywhere.
pub type AssetId = u128;

/// The kind of an uploaded original.
#[derive(Clone, Copy, PartialEq, Eq, Structural, Debug)]
pub enum AssetKind {
    Video,
    Audio,
}

/// A derived artifact that the pipeline can produce from an original.
/// `Thumbnail` applies to video assets; `TransientMarkers` and `Waveform`
/// apply to audio assets.
#[derive(Clone, Copy, PartialEq, Eq, Structural, Debug)]
pub enum DerivedKind {
    Thumbnail,
    TransientMarkers,
    Waveform,
}

impl DerivedKind {
    /// Which derived kinds apply to which asset kind.
    pub open spec fn applies_to(self, kind: AssetKind) -> bool {
        match self {
            DerivedKind::Thumbnail => kind == AssetKind::Video,
            DerivedKind::TransientMarkers => kind == AssetKind::Audio,
            DerivedKind::Waveform => kind == AssetKind::Audio,
        }
    }

    /// Executable test of `applies_to`.
    pub fn applicable(self, kind: AssetKind) -> (r: bool)
        ensures
            r == self.applies_to(kind),
    {
        match self {
            DerivedKind::Thumbnail => kind == AssetKind::Video,
            DerivedKind::TransientMarkers => kind == AssetKind::Audio,
            DerivedKind::Waveform => kind == AssetKind::Audio,
        }
    }
}

/// Error taxonomy of the service.
#[derive(Clone, PartialEq, Eq, Debug)]
pub enum AppError {
    /// Unknown id or missing derived artifact.
    NotFound,
    /// Malformed or missing upload field, or out-of-range sensitivity.
    InvalidInput,
    /// I/O failure writing or reading blobs.
    StorageError,
    /// Decode or processing failure during analysis.
    AnalysisError,
    /// Duplicate identifier on insert: an internal-invariant violation.
    Conflict,
}

impl AppError {
    /// Human-readable name of the error variant.
    pub fn describe(&self) -> (r: &'static str)
        ensures
            r@ == self.spec_describe(),
    {
        match self {
            AppError::NotFound => "not found",
            AppError::InvalidInput => "invalid input",
            AppError::StorageError => "storage error",
            AppError::AnalysisError => "analysis error",
            AppError::Conflict => "conflict",
        }
    }

    /// What `describe` returns for each variant.
    pub open spec fn spec_describe(self) -> Seq<char> {
        match self {
            AppError::NotFound => "not found"@,
            AppError::InvalidInput => "invalid input"@,
            AppError::StorageError => "storage error"@,
            AppError::AnalysisError => "analysis error"@,
            AppError::Conflict => "conflict"@,
        }
    }
}

/// State of one derived artifact of one asset.
#[derive(Clone, Debug)]
pub enum DerivedState {
    /// No job has ever been started for this (asset, kind).
    NotStarted,
    /// A job is in flight; at most one at a time per (asset, kind).
    Pending,
    /// The artifact was produced and stored under `key` at `produced_at`
    /// (milliseconds since the epoch).
    Ready { key: BlobKey, produced_at: u64 },
    /// The last job failed with a human-readable `reason` at `failed_at`.
    Failed { reason: String, failed_at: u64 },
}

impl DerivedState {
    /// Copy of a state, byte for byte.
    pub fn duplicate(&self) -> (r: DerivedState)
        ensures
            r == *self,
    {
        match self {
            DerivedState::NotStarted => DerivedState::NotStarted,
            DerivedState::Pending => DerivedState::Pending,
            DerivedState::Ready { key, produced_at } => DerivedState::Ready {
                key: *key,
                produced_at: *produced_at,
            },
            DerivedState::Failed { reason, failed_at } => DerivedState::Failed {
                reason: reason.clone(),
                failed_at: *failed_at,
            },
        }
    }
}

/// The derived-asset states of one asset, one slot per `DerivedKind`.
#[derive(Clone, Debug)]
pub struct DerivedSet {
    pub thumbnail: DerivedState,
    pub transients: DerivedState,
    pub waveform: DerivedState,
}

impl DerivedSet {
    /// All slots `NotStarted`: the state of a record at insertion.
    pub open spec fn spec_initial() -> DerivedSet {
        DerivedSet {
            thumbnail: DerivedState::NotStarted,
            transients: DerivedState::NotStarted,
            waveform: DerivedState::NotStarted,
        }
    }

    /// The slot for one derived kind.
    pub open spec fn spec_get(self, kind: DerivedKind) -> DerivedState {
        match kind {
            DerivedKind::Thumbnail => self.thumbnail,
            DerivedKind::TransientMarkers => self.transients,
            DerivedKind::Waveform => self.waveform,
        }
    }

    /// Executable form of `spec_get`; returns a copy of the slot.
    pub fn get(&self, kind: DerivedKind) -> (r: DerivedState)
        ensures
            r == self.spec_get(kind),
    {
        match kind {
            DerivedKind::Thumbnail => self.thumbnail.duplicate(),
            DerivedKind::TransientMarkers => self.transients.duplicate(),
            DerivedKind::Waveform => self.waveform.duplicate(),
        }
    }

    /// The set with one slot replaced.
    pub open spec fn spec_set(self, kind: DerivedKind, st: DerivedState) -> DerivedSet {
        match kind {
            DerivedKind::Thumbnail => DerivedSet { thumbnail: st, ..self },
            DerivedKind::TransientMarkers => DerivedSet { transients: st, ..self },
            DerivedKind::Waveform => DerivedSet { waveform: st, ..self },
        }
    }

    /// Executable form of `spec_set`.
    pub fn set(&mut self, kind: DerivedKind, st: DerivedState)
        ensures
            *final(self) == old(self).spec_set(kind, st),
    {
        match kind {
            DerivedKind::Thumbnail => {
                self.thumbnail = st;
            },
            DerivedKind::TransientMarkers => {
                self.transients = st;
            },
            DerivedKind::Waveform => {
                self.waveform = st;
            },
        }
    }

    /// Setting one slot changes that slot and no other.
    pub proof fn lemma_set_frame(self, kind: DerivedKind, st: DerivedState)
        ensures
            forall|k: DerivedKind|
                #[trigger] self.spec_set(kind, st).spec_get(k) == if k == kind {
                    st
                } else {
                    self.spec_get(k)
                },
    {
        assert forall|k: DerivedKind|
            #[trigger] self.spec_set(kind, st).spec_get(k) == if k == kind {
                st
            } else {
                self.spec_get(k)
            } by {
            match (kind, k) {
                (DerivedKind::Thumbnail, DerivedKind::Thumbnail) => {},
                (DerivedKind::Thumbnail, DerivedKind::TransientMarkers) => {},
                (DerivedKind::Thumbnail, DerivedKind::Waveform) => {},
                (DerivedKind::TransientMarkers, DerivedKind::Thumbnail) => {},
                (DerivedKind::TransientMarkers, DerivedKind::TransientMarkers) => {},
                (DerivedKind::TransientMarkers, DerivedKind::Waveform) => {},
                (DerivedKind::Waveform, DerivedKind::Thumbnail) => {},
                (DerivedKind::Waveform, DerivedKind::TransientMarkers) => {},
                (DerivedKind::Waveform, DerivedKind::Waveform) => {},
            }
        }
    }

    /// Copy of the whole set.
    pub fn duplicate(&self) -> (r: DerivedSet)
        ensures
            r == *self,
    {
        DerivedSet {
            thumbnail: self.thumbnail.duplicate(),
            transients: self.transients.duplicate(),
            waveform: self.waveform.duplicate(),
        }
    }
}

/// Catalog record of one uploaded original.
#[derive(Clone, Debug)]
pub struct AssetRecord {
    pub id: AssetId,
    pub kind: AssetKind,
    pub original_filename: String,
    pub size_bytes: u64,
    /// Milliseconds since the Unix epoch.
    pub uploaded_at_ms: u64,
    /// Key of the original bytes in the blob store.
    pub storage_path: BlobKey,
    pub derived: DerivedSet,
}

impl AssetRecord {
    /// A record is well formed when its storage path is the original key
    /// for its own kind and id, and only applicable derived kinds have
    /// left `NotStarted`.
    pub open spec fn wf(self) -> bool {
        &&& self.storage_path == BlobKey::spec_original(self.kind, self.id)
        &&& forall|k: DerivedKind|
            !k.applies_to(self.kind) ==> self.derived.spec_get(k) == DerivedState::NotStarted
    }

    /// Copy of the whole record.
    pub fn duplicate(&self) -> (r: AssetRecord)
        ensures
            r == *self,
    {
        AssetRecord {
            id: self.id,
            kind: self.kind,
            original_filename: self.original_filename.clone(),
            size_bytes: self.size_bytes,
            uploaded_at_ms: self.uploaded_at_ms,
            storage_path: self.storage_path,
            derived: self.derived.duplicate(),
        }
    }
}

/// Listing summary of one video asset.
#[derive(Clone, Debug)]
pub struct VideoInfo {
    pub id: AssetId,
    pub filename: String,
    pub size: u64,
    pub uploaded_at_ms: u64,
    /// State of the thumbnail pipeline for this asset.
    pub thumbnail: DerivedState,
}

/// Listing summary of one audio asset.
#[derive(Clone, Debug)]
pub struct AudioInfo {
    pub id: AssetId,
    pub filename: String,
    pub size: u64,
    pub uploaded_at_ms: u64,
}

/// Result of a transient analysis: marker timestamps in milliseconds,
/// non-decreasing and within `[0, duration_ms]`.
#[derive(Clone, Debug)]
pub struct AudioAnalysis {
    pub id: AssetId,
    pub markers: Vec<u64>,
    pub duration_ms: u64,
    pub sample_rate: u32,
    pub peak_frequencies: Vec<u32>,
}

/// What a successful upload reports back.
#[derive(Clone, Debug)]
pub struct UploadResponse {
    pub id: AssetId,
    pub filename: String,
    pub size: u64,
    pub message: String,
}

/// What a failed request reports back.
#[derive(Clone, Debug)]
pub struct ErrorResponse {
    pub error: String,
}

impl ErrorResponse {
    /// The response body an error yields: its human-readable name.
    pub fn of(e: &AppError) -> (r: ErrorResponse)
        ensures
            r.error@ == e.spec_describe(),
    {
        ErrorResponse { error: e.describe().to_owned() }
    }
}

/// What a read of a derived artifact yields: a status the caller can
/// poll on, a failure reason, or the artifact bytes themselves.
#[derive(Clone, Debug)]
pub enum DerivedFetch {
    /// No job was ever started.
    NotStarted,
    /// A job is in flight; poll again.
    Pending,
    /// The last job failed, with its reason.
    Failed { reason: String },
    /// The artifact, served from the blob store.
    Ready { bytes: Vec<u8> },
}

/// Namespace of a blob-store key: originals, thumbnails and analysis
/// artifacts live in disjoint key spaces.
#[derive(Clone, Copy, PartialEq, Eq, Structural, Debug)]
pub enum KeySpace {
    Videos,
    Audio,
    Thumbnails,
    Analysis,
    Waveforms,
}

/// A blob-store key: a namespace plus the owning asset's id.
#[derive(Clone, Copy, PartialEq, Eq, Structural, Debug)]
pub struct BlobKey {
    pub space: KeySpace,
    pub id: AssetId,
}

impl BlobKey {
    /// The key under which an original of the given kind is stored.
    pub open spec fn spec_original(kind: AssetKind, id: AssetId) -> BlobKey {
        BlobKey {
            space: match kind {
                AssetKind::Video => KeySpace::Videos,
                AssetKind::Audio => KeySpace::Audio,
            },
            id,
        }
    }

    /// Executable form of `spec_original`.
    pub fn original(kind: AssetKind, id: AssetId) -> (r: BlobKey)
        ensures
            r == Self::spec_original(kind, id),
    {
        BlobKey {
            space: match kind {
                AssetKind::Video => KeySpace::Videos,
                AssetKind::Audio => KeySpace::Audio,
            },
            id,
        }
    }

    /// The key under which a derived artifact of the given kind is stored.
    pub open spec fn spec_derived(kind: DerivedKind, id: AssetId) -> BlobKey {
        BlobKey {
            space: match kind {
                DerivedKind::Thumbnail => KeySpace::Thumbnails,
                DerivedKind::TransientMarkers => KeySpace::Analysis,
                DerivedKind::Waveform => KeySpace::Waveforms,
            },
            id,
        }
    }

    /// Executable form of `spec_derived`.
    pub fn derived(kind: DerivedKind, id: AssetId) -> (r: BlobKey)
        ensures
            r == Self::spec_derived(kind, id),
    {
        BlobKey {
            space: match kind {
                DerivedKind::Thumbnail => KeySpace::Thumbnails,
                DerivedKind::TransientMarkers => KeySpace::Analysis,
                DerivedKind::Waveform => KeySpace::Waveforms,
            },
            id,
        }
    }
}

} // verus!

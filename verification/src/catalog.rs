//! Catalog: the single source of truth for which assets exist.
//!
//! Records are kept in upload order with unique ids, so a listing is
//! ordered by upload time ascending. The derived-asset state machine is
//! driven through compare-and-transition operations: applying `Pending`
//! while a job is already pending is a no-op signal, which gives
//! at-most-one-in-flight semantics to concurrent enqueue callers.

use vstd::prelude::*;

use crate::models::{AppError, AssetId, AssetKind, AssetRecord, BlobKey, DerivedKind, DerivedState};

verus! {

/// Index of the first record with the given id, scanning from `i`.
pub open spec fn find_from(s: Seq<AssetRecord>, id: AssetId, i: int) -> Option<int>
    decreases s.len() - i when 0 <= i <= s.len()
{
    if i >= s.len() {
        None
    } else if s[i].id == id {
        Some(i)
    } else {
        find_from(s, id, i + 1)
    }
}

/// Index of the record with the given id, if any.
pub open spec fn spec_index_of(s: Seq<AssetRecord>, id: AssetId) -> Option<int> {
    find_from(s, id, 0)
}

/// Whether some record carries the given id.
pub open spec fn spec_contains(s: Seq<AssetRecord>, id: AssetId) -> bool {
    spec_index_of(s, id) is Some
}

/// The record with the given id, if any.
pub open spec fn spec_get(s: Seq<AssetRecord>, id: AssetId) -> Option<AssetRecord> {
    match spec_index_of(s, id) {
        Some(i) => Some(s[i]),
        None => None,
    }
}

/// What `find_from` finds lies in range, carries the id, and is the first
/// such index at or after `i`.
pub proof fn lemma_find_from(s: Seq<AssetRecord>, id: AssetId, i: int)
    requires
        0 <= i <= s.len(),
    ensures
        match find_from(s, id, i) {
            Some(j) => i <= j < s.len() && s[j].id == id && (forall|k: int|
                i <= k < j ==> s[k].id != id),
            None => forall|k: int| i <= k < s.len() ==> s[k].id != id,
        },
    decreases s.len() - i,
{
    if i < s.len() && s[i].id != id {
        lemma_find_from(s, id, i + 1);
    }
}

/// Appending a record with a fresh id: the new record is found at the
/// end, and every other id is found where it was.
pub proof fn lemma_index_of_push(s: Seq<AssetRecord>, rec: AssetRecord, id: AssetId)
    ensures
        !spec_contains(s, rec.id) && id == rec.id ==> spec_index_of(s.push(rec), id) == Some(
            s.len() as int,
        ),
        id != rec.id ==> spec_index_of(s.push(rec), id) == spec_index_of(s, id),
{
    lemma_find_from(s, id, 0);
    lemma_find_from(s.push(rec), id, 0);
    lemma_find_from(s, rec.id, 0);
    lemma_find_from(s.push(rec), rec.id, 0);
    if id != rec.id {
        match find_from(s, id, 0) {
            Some(j) => {
                lemma_find_from_prefix_match(s.push(rec), s, id, 0);
            },
            None => {
                assert(s.push(rec)[s.len() as int].id != id);
            },
        }
    }
}

/// Two sequences that agree on every id are searched identically.
proof fn lemma_find_from_prefix_match(s1: Seq<AssetRecord>, s2: Seq<AssetRecord>, id: AssetId, i: int)
    requires
        0 <= i <= s2.len() <= s1.len(),
        forall|j: int| 0 <= j < s2.len() ==> s1[j].id == #[trigger] s2[j].id,
        forall|j: int| 0 <= j < s2.len() ==> s1[j] == s2[j],
        find_from(s2, id, i) is Some,
    ensures
        find_from(s1, id, i) == find_from(s2, id, i),
    decreases s2.len() - i,
{
    if i < s2.len() && s2[i].id != id {
        lemma_find_from_prefix_match(s1, s2, id, i + 1);
    }
}

/// Two sequences of the same length whose records carry the same ids
/// index-for-index are searched identically.
pub proof fn lemma_find_from_same_ids(
    s1: Seq<AssetRecord>,
    s2: Seq<AssetRecord>,
    id: AssetId,
    i: int,
)
    requires
        s1.len() == s2.len(),
        forall|j: int| 0 <= j < s1.len() ==> s1[j].id == #[trigger] s2[j].id,
        0 <= i <= s1.len(),
    ensures
        find_from(s1, id, i) == find_from(s2, id, i),
    decreases s1.len() - i,
{
    if i < s1.len() && s1[i].id != id {
        lemma_find_from_same_ids(s1, s2, id, i + 1);
    }
}

/// Every element a filter keeps is an element of the sequence.
pub proof fn lemma_filter_members(s: Seq<AssetRecord>, pred: spec_fn(AssetRecord) -> bool)
    ensures
        forall|i: int|
            0 <= i < s.filter(pred).len() ==> s.contains(#[trigger] s.filter(pred)[i]),
    decreases s.len(),
{
    reveal(Seq::filter);
    if s.len() > 0 {
        let dl = s.drop_last();
        lemma_filter_members(dl, pred);
        assert forall|i: int|
            0 <= i < s.filter(pred).len() implies s.contains(#[trigger] s.filter(pred)[i]) by {
            if i < dl.filter(pred).len() {
                assert(dl.contains(dl.filter(pred)[i]));
                let j = choose|j: int| 0 <= j < dl.len() && dl[j] == dl.filter(pred)[i];
                assert(s[j] == s.filter(pred)[i]);
            } else {
                assert(s[s.len() - 1] == s.filter(pred)[i]);
            }
        }
    }
}

/// A filter of a sequence ordered by upload time is ordered by upload
/// time: listings stay sorted.
pub proof fn lemma_filter_sorted(s: Seq<AssetRecord>, pred: spec_fn(AssetRecord) -> bool)
    requires
        forall|i: int, j: int|
            0 <= i <= j < s.len() ==> s[i].uploaded_at_ms <= s[j].uploaded_at_ms,
    ensures
        forall|i: int, j: int|
            0 <= i <= j < s.filter(pred).len() ==> #[trigger] s.filter(pred)[i].uploaded_at_ms
                <= #[trigger] s.filter(pred)[j].uploaded_at_ms,
    decreases s.len(),
{
    reveal(Seq::filter);
    if s.len() > 0 {
        let dl = s.drop_last();
        lemma_filter_sorted(dl, pred);
        lemma_filter_members(dl, pred);
        assert forall|i: int, j: int|
            0 <= i <= j < s.filter(pred).len() implies #[trigger] s.filter(pred)[i].uploaded_at_ms
            <= #[trigger] s.filter(pred)[j].uploaded_at_ms by {
            if j < dl.filter(pred).len() {
                assert(dl.filter(pred)[i] == s.filter(pred)[i]);
                assert(dl.filter(pred)[j] == s.filter(pred)[j]);
            } else if pred(s.last()) && j == s.filter(pred).len() - 1 {
                if i < j {
                    assert(dl.filter(pred)[i] == s.filter(pred)[i]);
                    assert(dl.contains(dl.filter(pred)[i]));
                    let k = choose|k: int| 0 <= k < dl.len() && dl[k] == dl.filter(pred)[i];
                    assert(s[k].uploaded_at_ms <= s[s.len() - 1].uploaded_at_ms);
                }
            }
        }
    }
}

/// A result of asking for a derived-asset job to be started.
#[derive(Clone, Copy, PartialEq, Eq, Structural, Debug)]
pub enum EnqueueOutcome {
    /// The slot moved to `Pending`: the caller owns the one job.
    Started,
    /// A job is already in flight; nothing was changed.
    AlreadyPending,
    /// The artifact is already there; nothing was changed.
    AlreadyReady,
}

/// The enqueue transition of the derived-asset state machine:
/// `NotStarted` and `Failed` move to `Pending`; `Pending` and `Ready`
/// stay put.
pub open spec fn spec_enqueue_step(st: DerivedState) -> (DerivedState, EnqueueOutcome) {
    match st {
        DerivedState::NotStarted => (DerivedState::Pending, EnqueueOutcome::Started),
        DerivedState::Pending => (DerivedState::Pending, EnqueueOutcome::AlreadyPending),
        DerivedState::Ready { .. } => (st, EnqueueOutcome::AlreadyReady),
        DerivedState::Failed { .. } => (DerivedState::Pending, EnqueueOutcome::Started),
    }
}

/// The completion transition: only a `Pending` job may publish `Ready`.
pub open spec fn spec_complete_step(st: DerivedState, key: BlobKey, at: u64) -> (
    DerivedState,
    bool,
) {
    if st is Pending {
        (DerivedState::Ready { key, produced_at: at }, true)
    } else {
        (st, false)
    }
}

/// The failure transition: only a `Pending` job may record `Failed`.
pub open spec fn spec_fail_step(st: DerivedState, reason: String, at: u64) -> (
    DerivedState,
    bool,
) {
    if st is Pending {
        (DerivedState::Failed { reason, failed_at: at }, true)
    } else {
        (st, false)
    }
}

/// Once any enqueue has run, a second enqueue starts no further job and
/// changes nothing: duplicate concurrent enqueue calls for one
/// (asset, kind) collapse to exactly one `Started`.
pub proof fn lemma_enqueue_at_most_once(st: DerivedState)
    ensures
        ({
            let (st1, o1) = spec_enqueue_step(st);
            let (st2, o2) = spec_enqueue_step(st1);
            st2 == st1 && o2 != EnqueueOutcome::Started
        }),
{
}

/// The catalog: asset records in upload order.
pub struct Catalog {
    records: Vec<AssetRecord>,
}

impl View for Catalog {
    type V = Seq<AssetRecord>;

    closed spec fn view(&self) -> Seq<AssetRecord> {
        self.records@
    }
}

/// Catalog well-formedness: ids are unique, records are ordered by upload
/// time ascending, and each record is itself well formed.
pub open spec fn catalog_wf(s: Seq<AssetRecord>) -> bool {
    &&& forall|i: int, j: int| 0 <= i < j < s.len() ==> s[i].id != s[j].id
    &&& forall|i: int, j: int|
        0 <= i <= j < s.len() ==> s[i].uploaded_at_ms <= s[j].uploaded_at_ms
    &&& forall|i: int| 0 <= i < s.len() ==> (#[trigger] s[i]).wf()
}

/// The newest upload time in the catalog, 0 when it is empty.
pub open spec fn spec_latest(s: Seq<AssetRecord>) -> u64 {
    if s.len() == 0 {
        0
    } else {
        s.last().uploaded_at_ms
    }
}

impl Catalog {
    /// A new catalog holds no records.
    pub fn new() -> (r: Catalog)
        ensures
            r@ == Seq::<AssetRecord>::empty(),
            catalog_wf(r@),
    {
        Catalog { records: Vec::new() }
    }

    /// Number of records.
    pub fn len(&self) -> (r: usize)
        ensures
            r == self@.len(),
    {
        self.records.len()
    }

    /// Index of the record with the given id, if any.
    fn index_of(&self, id: AssetId) -> (r: Option<usize>)
        ensures
            match r {
                Some(i) => spec_index_of(self@, id) == Some(i as int),
                None => spec_index_of(self@, id) is None,
            },
    {
        let mut i: usize = 0;
        while i < self.records.len()
            invariant
                0 <= i <= self@.len(),
                find_from(self@, id, 0) == find_from(self@, id, i as int),
            decreases self@.len() - i,
        {
            if self.records[i].id == id {
                return Some(i);
            }
            i = i + 1;
        }
        None
    }

    /// Whether a record with the given id exists.
    pub fn contains_id(&self, id: AssetId) -> (r: bool)
        ensures
            r == spec_contains(self@, id),
    {
        self.index_of(id).is_some()
    }

    /// Snapshot copy of the record with the given id.
    pub fn get(&self, id: AssetId) -> (r: Option<AssetRecord>)
        ensures
            r == spec_get(self@, id),
    {
        proof {
            lemma_find_from(self@, id, 0);
        }
        match self.index_of(id) {
            Some(i) => Some(self.records[i].duplicate()),
            None => None,
        }
    }

    /// The newest upload time, 0 for an empty catalog.
    pub fn latest_ts(&self) -> (r: u64)
        ensures
            r == spec_latest(self@),
    {
        if self.records.len() == 0 {
            0
        } else {
            self.records[self.records.len() - 1].uploaded_at_ms
        }
    }

    /// Add a record. Fails with `Conflict` if and only if the id is
    /// already present; on success the record is appended, so a listing
    /// reflects it immediately.
    pub fn insert(&mut self, rec: AssetRecord) -> (r: Result<(), AppError>)
        requires
            catalog_wf(old(self)@),
            rec.wf(),
            rec.uploaded_at_ms >= spec_latest(old(self)@),
        ensures
            catalog_wf(final(self)@),
            r is Err <==> spec_contains(old(self)@, rec.id),
            r is Err ==> r == Err::<(), AppError>(AppError::Conflict) && final(self)@ == old(
                self,
            )@,
            r is Ok ==> final(self)@ == old(self)@.push(rec),
    {
        let ghost pre = self@;
        if self.contains_id(rec.id) {
            return Err(AppError::Conflict);
        }
        proof {
            lemma_find_from(pre, rec.id, 0);
        }
        self.records.push(rec);
        Ok(())
    }

    /// Ask for a derived-asset job to be started. `NotFound` if and only
    /// if the id is unknown; `InvalidInput` if the kind does not apply to
    /// the asset's kind. Otherwise the enqueue transition runs: while a
    /// job is `Pending`, further calls are no-ops that report
    /// `AlreadyPending`, never a second `Started`.
    pub fn try_enqueue(&mut self, id: AssetId, kind: DerivedKind) -> (r: Result<
        EnqueueOutcome,
        AppError,
    >)
        requires
            catalog_wf(old(self)@),
        ensures
            catalog_wf(final(self)@),
            r == Err::<EnqueueOutcome, AppError>(AppError::NotFound) <==> !spec_contains(
                old(self)@,
                id,
            ),
            r is Err ==> final(self)@ == old(self)@,
            match spec_get(old(self)@, id) {
                Some(rec) => {
                    if kind.applies_to(rec.kind) {
                        ({
                            let i = spec_index_of(old(self)@, id)->Some_0;
                            let (st2, out) = spec_enqueue_step(rec.derived.spec_get(kind));
                            r == Ok::<EnqueueOutcome, AppError>(out) && final(self)@ == old(
                                self,
                            )@.update(
                                i,
                                (AssetRecord { derived: rec.derived.spec_set(kind, st2), ..rec }),
                            )
                        })
                    } else {
                        r == Err::<EnqueueOutcome, AppError>(AppError::InvalidInput)
                    }
                },
                None => r == Err::<EnqueueOutcome, AppError>(AppError::NotFound),
            },
    {
        let ghost pre = self@;
        proof {
            lemma_find_from(pre, id, 0);
        }
        let i = match self.index_of(id) {
            Some(i) => i,
            None => {
                return Err(AppError::NotFound);
            },
        };
        if !kind.applicable(self.records[i].kind) {
            return Err(AppError::InvalidInput);
        }
        let st = self.records[i].derived.get(kind);
        let (st2, out) = match st {
            DerivedState::NotStarted => (DerivedState::Pending, EnqueueOutcome::Started),
            DerivedState::Pending => (DerivedState::Pending, EnqueueOutcome::AlreadyPending),
            DerivedState::Ready { key, produced_at } => (
                DerivedState::Ready { key, produced_at },
                EnqueueOutcome::AlreadyReady,
            ),
            DerivedState::Failed { .. } => (DerivedState::Pending, EnqueueOutcome::Started),
        };
        let mut rec = self.records[i].duplicate();
        rec.derived.set(kind, st2);
        self.records.set(i, rec);
        Ok(out)
    }

    /// Publish a finished artifact: the completion transition. Returns
    /// `Ok(true)` and moves the slot to `Ready` exactly when a job was
    /// `Pending`; any other state is left unchanged and reported as
    /// `Ok(false)`. `NotFound` if and only if the id is unknown.
    pub fn set_ready(&mut self, id: AssetId, kind: DerivedKind, key: BlobKey, produced_at: u64) -> (r:
        Result<bool, AppError>)
        requires
            catalog_wf(old(self)@),
        ensures
            catalog_wf(final(self)@),
            r is Err <==> !spec_contains(old(self)@, id),
            r is Err ==> r == Err::<bool, AppError>(AppError::NotFound) && final(self)@ == old(
                self,
            )@,
            match spec_get(old(self)@, id) {
                Some(rec) => ({
                    let i = spec_index_of(old(self)@, id)->Some_0;
                    let (st2, moved) = spec_complete_step(
                        rec.derived.spec_get(kind),
                        key,
                        produced_at,
                    );
                    r == Ok::<bool, AppError>(moved) && final(self)@ == old(self)@.update(
                        i,
                        (AssetRecord { derived: rec.derived.spec_set(kind, st2), ..rec }),
                    )
                }),
                None => r is Err,
            },
    {
        let ghost pre = self@;
        proof {
            lemma_find_from(pre, id, 0);
        }
        let i = match self.index_of(id) {
            Some(i) => i,
            None => {
                return Err(AppError::NotFound);
            },
        };
        let st = self.records[i].derived.get(kind);
        let (st2, moved) = match st {
            DerivedState::Pending => (
                DerivedState::Ready { key, produced_at },
                true,
            ),
            other => (other, false),
        };
        let mut rec = self.records[i].duplicate();
        rec.derived.set(kind, st2);
        self.records.set(i, rec);
        proof {
            assert(self@[i as int].wf()) by {
                assert(pre[i as int].wf());
            }
        }
        Ok(moved)
    }

    /// Record a failed job: the failure transition. Returns `Ok(true)`
    /// and moves the slot to `Failed` exactly when a job was `Pending`;
    /// any other state is left unchanged and reported as `Ok(false)`.
    /// `NotFound` if and only if the id is unknown.
    pub fn set_failed(&mut self, id: AssetId, kind: DerivedKind, reason: String, failed_at: u64) -> (r:
        Result<bool, AppError>)
        requires
            catalog_wf(old(self)@),
        ensures
            catalog_wf(final(self)@),
            r is Err <==> !spec_contains(old(self)@, id),
            r is Err ==> r == Err::<bool, AppError>(AppError::NotFound) && final(self)@ == old(
                self,
            )@,
            match spec_get(old(self)@, id) {
                Some(rec) => ({
                    let i = spec_index_of(old(self)@, id)->Some_0;
                    let (st2, moved) = spec_fail_step(
                        rec.derived.spec_get(kind),
                        reason,
                        failed_at,
                    );
                    r == Ok::<bool, AppError>(moved) && final(self)@ == old(self)@.update(
                        i,
                        (AssetRecord { derived: rec.derived.spec_set(kind, st2), ..rec }),
                    )
                }),
                None => r is Err,
            },
    {
        let ghost pre = self@;
        proof {
            lemma_find_from(pre, id, 0);
        }
        let i = match self.index_of(id) {
            Some(i) => i,
            None => {
                return Err(AppError::NotFound);
            },
        };
        let st = self.records[i].derived.get(kind);
        let (st2, moved) = match st {
            DerivedState::Pending => (
                DerivedState::Failed { reason, failed_at },
                true,
            ),
            other => (other, false),
        };
        let mut rec = self.records[i].duplicate();
        rec.derived.set(kind, st2);
        self.records.set(i, rec);
        Ok(moved)
    }

    /// All records of one asset kind, in upload order.
    pub fn list(&self, kind: AssetKind) -> (r: Vec<AssetRecord>)
        ensures
            r@ == self@.filter(|rec: AssetRecord| rec.kind == kind),
    {
        let ghost all = self@;
        let mut out: Vec<AssetRecord> = Vec::new();
        let mut i: usize = 0;
        proof {
            reveal(Seq::filter);
            assert(all.take(0) == Seq::<AssetRecord>::empty());
        }
        while i < self.records.len()
            invariant
                0 <= i <= all.len(),
                all == self@,
                out@ == all.take(i as int).filter(|rec: AssetRecord| rec.kind == kind),
            decreases all.len() - i,
        {
            proof {
                reveal(Seq::filter);
                assert(all.take(i + 1).drop_last() == all.take(i as int));
                assert(all.take(i + 1).last() == all[i as int]);
            }
            if self.records[i].kind == kind {
                out.push(self.records[i].duplicate());
            }
            i = i + 1;
        }
        proof {
            assert(all.take(all.len() as int) == all);
        }
        out
    }
}

} // verus!

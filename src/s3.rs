use crate::cache::{is_eviction_plan, CacheEntry, EvictionPlan};
use vstd::prelude::*;

verus! {

/// An object of a remote store: its bucket and its key.
pub struct S3Url {
    pub bucket: String,
    pub key: String,
}

impl S3Url {
    /// Create an S3Url
    pub fn new(bucket: String, key: String) -> (r: S3Url)
        ensures
            r.bucket@ == bucket@,
            r.key@ == key@,
    {
        S3Url { bucket, key }
    }

    /// Format as s3://<bucket>/<key>
    pub fn to_string(&self) -> (r: String)
        ensures
            r@ == "s3://"@ + self.bucket@ + "/"@ + self.key@,
    {
        String::from_str("s3://").concat(self.bucket.as_str()).concat("/").concat(self.key.as_str())
    }
}

/// Where a download stands.
#[derive(PartialEq, Eq, Structural, Clone, Copy, Debug)]
pub enum DownloadState {
    /// The object's metadata is being resolved.
    Resolving,
    /// The object has a key; the cache is being looked up.
    LookingUp,
    /// The object is missing from the cache; room is being made for it.
    MakingSpace,
    /// The object is being written to its temporary path.
    Fetching,
    /// The written object is being renamed to its permanent path.
    Committing,
    /// Nothing is left to decide.
    Finished,
}

/// What the downloader learned from the last action.
#[derive(PartialEq, Eq, Structural, Clone, Copy, Debug)]
pub enum DownloadEvent {
    /// The metadata was resolved; it does or does not carry a key.
    Resolved { has_key: bool },
    /// The cache was opened and does or does not hold the key.
    LookedUp { hit: bool },
    /// Eviction reported whether the object now fits.
    SpaceMade { fits: bool },
    /// Writing the object to its temporary path did or did not succeed.
    Fetched { ok: bool },
    /// The rename to the permanent path succeeded.
    Committed,
}

/// What the downloader does next.
#[derive(PartialEq, Eq, Structural, Clone, Copy, Debug)]
pub enum DownloadAction {
    /// Fetch the object straight to the destination, leaving the cache alone;
    /// its outcome is the download's.
    FetchDirect,
    /// Open the cache and look the key up.
    LookUp,
    /// Copy the cached entry to the destination; its outcome is the download's.
    CopyFromCache,
    /// Ask the cache to make room for the object.
    MakeSpace,
    /// Write the object to the key's temporary path.
    FetchToTemporary,
    /// Remove the temporary file, then report the failed fetch.
    DiscardTemporary,
    /// Rename the temporary file to the key's permanent path; a failure is
    /// the download's outcome and leaves the temporary file in place.
    CommitTemporary,
    /// Touch the newly committed entry; its outcome is the download's.
    TouchCommitted,
    /// The event does not belong to this state: stop without touching anything.
    Abandon,
}

/// The step of the download protocol: what follows `event` in `state`.
pub open spec fn download_step(state: DownloadState, event: DownloadEvent) -> (
    DownloadState,
    DownloadAction,
) {
    match (state, event) {
        (DownloadState::Resolving, DownloadEvent::Resolved { has_key }) => if has_key {
            (DownloadState::LookingUp, DownloadAction::LookUp)
        } else {
            (DownloadState::Finished, DownloadAction::FetchDirect)
        },
        (DownloadState::LookingUp, DownloadEvent::LookedUp { hit }) => if hit {
            (DownloadState::Finished, DownloadAction::CopyFromCache)
        } else {
            (DownloadState::MakingSpace, DownloadAction::MakeSpace)
        },
        (DownloadState::MakingSpace, DownloadEvent::SpaceMade { fits }) => if fits {
            (DownloadState::Fetching, DownloadAction::FetchToTemporary)
        } else {
            (DownloadState::Finished, DownloadAction::FetchDirect)
        },
        (DownloadState::Fetching, DownloadEvent::Fetched { ok }) => if ok {
            (DownloadState::Committing, DownloadAction::CommitTemporary)
        } else {
            (DownloadState::Finished, DownloadAction::DiscardTemporary)
        },
        (DownloadState::Committing, DownloadEvent::Committed) => (
            DownloadState::Finished,
            DownloadAction::TouchCommitted,
        ),
        _ => (DownloadState::Finished, DownloadAction::Abandon),
    }
}

/// Decides what a download does after `event`: objects without a key, and
/// objects the cache cannot hold, go straight to the destination; a hit is
/// copied out; a miss is written to a temporary path, committed by a
/// rename only once the write succeeded, and touched once committed.
pub fn next_download_step(state: DownloadState, event: DownloadEvent) -> (r: (
    DownloadState,
    DownloadAction,
))
    ensures
        r == download_step(state, event),
{
    match (state, event) {
        (DownloadState::Resolving, DownloadEvent::Resolved { has_key }) => if has_key {
            (DownloadState::LookingUp, DownloadAction::LookUp)
        } else {
            (DownloadState::Finished, DownloadAction::FetchDirect)
        },
        (DownloadState::LookingUp, DownloadEvent::LookedUp { hit }) => if hit {
            (DownloadState::Finished, DownloadAction::CopyFromCache)
        } else {
            (DownloadState::MakingSpace, DownloadAction::MakeSpace)
        },
        (DownloadState::MakingSpace, DownloadEvent::SpaceMade { fits }) => if fits {
            (DownloadState::Fetching, DownloadAction::FetchToTemporary)
        } else {
            (DownloadState::Finished, DownloadAction::FetchDirect)
        },
        (DownloadState::Fetching, DownloadEvent::Fetched { ok }) => if ok {
            (DownloadState::Committing, DownloadAction::CommitTemporary)
        } else {
            (DownloadState::Finished, DownloadAction::DiscardTemporary)
        },
        (DownloadState::Committing, DownloadEvent::Committed) => (
            DownloadState::Finished,
            DownloadAction::TouchCommitted,
        ),
        _ => (DownloadState::Finished, DownloadAction::Abandon),
    }
}

/// Admission commits only what was written in full: a rename to the
/// permanent path follows a successful write to the temporary path and
/// nothing else, and a failed write is followed by removing the temporary
/// file and by nothing more.
pub proof fn lemma_admission_commits_only_complete_writes(
    state: DownloadState,
    event: DownloadEvent,
)
    ensures
        download_step(state, event).1 == DownloadAction::CommitTemporary <==> (state
            == DownloadState::Fetching && event == (DownloadEvent::Fetched { ok: true })),
        (state == DownloadState::Fetching && event == (DownloadEvent::Fetched { ok: false }))
            ==> download_step(state, event) == (
            DownloadState::Finished,
            DownloadAction::DiscardTemporary,
        ),
        download_step(state, event).0 == DownloadState::Finished ==> forall|e: DownloadEvent|
            download_step(DownloadState::Finished, e) == (
                DownloadState::Finished,
                DownloadAction::Abandon,
            ),
{
}

/// An object larger than the budget bypasses the cache: eviction deletes
/// nothing and reports that it does not fit, and the download then fetches
/// it straight to the destination, writing nothing under its key.
pub proof fn lemma_oversized_object_bypasses_cache(
    budget: u64,
    size: u64,
    ordered: Seq<CacheEntry>,
    plan: EvictionPlan,
)
    requires
        is_eviction_plan(budget, size, ordered, plan),
        size > budget,
    ensures
        plan.num_to_delete == 0,
        download_step(DownloadState::MakingSpace, DownloadEvent::SpaceMade { fits: plan.made_space })
            == (DownloadState::Finished, DownloadAction::FetchDirect),
{
}

} // verus!

//! A transcription job: what is being transcribed, and a cancel flag that every
//! clone of the job shares.
use vstd::prelude::*;
use std::path::PathBuf;
use std::sync::atomic::AtomicBool;
use std::sync::Arc;

verus! {

/// Trusted declaration of `std::path::PathBuf`, carried through opaquely.
#[verifier::external_type_specification]
#[verifier::external_body]
pub struct ExPathBuf(PathBuf);

/// Trusted: `<PathBuf as Clone>::clone`, which the derived `Clone` of `JobKind` calls.
/// Nothing is claimed of the copy.
pub assume_specification[ <std::path::PathBuf as std::clone::Clone>::clone ](p: &PathBuf) -> (r: PathBuf);

/// What a job transcribes: the live dictation, or a pending recording on disk.
#[derive(Debug, Clone)]
pub enum JobKind {
    Dictation,
    PendingFile { wav_path: PathBuf, pending_id: i64 },
}

/// A transcription job. Cloning it clones the `Arc` of the cancel flag, so every
/// clone observes the same flag: that is what lets `cancel_job` (which holds the copy
/// stored as the current job) signal the worker thread (which owns the original).
#[derive(Clone)]
pub struct TranscriptionJob {
    pub id: i64,
    pub kind: JobKind,
    pub cancel_flag: Arc<AtomicBool>,
    pub committed_text: String,
}

impl TranscriptionJob {
    /// A job with the given id and kind, no committed text, and a fresh cancel flag
    /// that is not set.
    pub fn new(id: i64, kind: JobKind) -> (job: Self)
        ensures
            job.id == id,
            job.kind == kind,
            job.committed_text@ == Seq::<char>::empty(),
    {
        TranscriptionJob {
            id,
            kind,
            cancel_flag: Arc::new(AtomicBool::new(false)),
            committed_text: String::new(),
        }
    }

    /// Sets the shared cancel flag.
    pub fn cancel(&self) {
        self.cancel_flag.store(true, std::sync::atomic::Ordering::Release);
    }

    /// Reads the shared cancel flag.
    pub fn is_cancelled(&self) -> bool {
        self.cancel_flag.load(std::sync::atomic::Ordering::Acquire)
    }
}

} // verus!

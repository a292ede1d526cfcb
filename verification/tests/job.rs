use martin::transcribe::job::{JobKind, TranscriptionJob};
use std::path::PathBuf;

#[test]
fn new_initializes_with_empty_text_and_unset_flag() {
    let job = TranscriptionJob::new(7, JobKind::Dictation);
    assert_eq!(job.id, 7);
    assert_eq!(job.committed_text, "");
    assert!(!job.is_cancelled());
}

#[test]
fn cancel_sets_the_flag() {
    let job = TranscriptionJob::new(1, JobKind::Dictation);
    assert!(!job.is_cancelled());
    job.cancel();
    assert!(job.is_cancelled());
}

#[test]
fn pending_file_carries_path_and_id() {
    let kind = JobKind::PendingFile {
        wav_path: PathBuf::from("/tmp/foo.wav"),
        pending_id: 42,
    };
    let job = TranscriptionJob::new(10, kind);
    match &job.kind {
        JobKind::PendingFile {
            wav_path,
            pending_id,
        } => {
            assert_eq!(wav_path, &PathBuf::from("/tmp/foo.wav"));
            assert_eq!(*pending_id, 42);
        }
        _ => panic!("wrong kind"),
    }
}

#[test]
fn a_clone_shares_the_cancel_flag() {
    let job = TranscriptionJob::new(3, JobKind::Dictation);
    let copy = job.clone();
    copy.cancel();
    assert!(job.is_cancelled());
}

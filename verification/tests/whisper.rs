use martin::transcribe::whisper::{transcript_from_segments, whisper_thread_count_for};

#[test]
fn whisper_thread_count_caps_at_eight_and_floors_at_one() {
    assert_eq!(whisper_thread_count_for(0), 1);
    assert_eq!(whisper_thread_count_for(1), 1);
    assert_eq!(whisper_thread_count_for(4), 4);
    assert_eq!(whisper_thread_count_for(8), 8);
    assert_eq!(whisper_thread_count_for(16), 8);
    assert_eq!(whisper_thread_count_for(64), 8);
}

#[test]
fn transcript_joins_and_trims_segments() {
    let segments = vec![" Olá".to_string(), " mundo.".to_string(), " Tudo bem? ".to_string()];
    assert_eq!(transcript_from_segments(&segments, " "), "Olá  mundo.  Tudo bem?");
    assert_eq!(transcript_from_segments(&segments, "\n"), "Olá\n mundo.\n Tudo bem?");
    assert_eq!(transcript_from_segments(&Vec::new(), " "), "");
}

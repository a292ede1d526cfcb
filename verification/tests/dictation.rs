use martin::dictation::{
    plan_stop, state_change_label, state_label, TranscriptionLoop, STATE_LISTENING, STATE_PAUSED,
    STATE_PROCESSING,
};

#[test]
fn state_labels_match_the_frontend() {
    assert_eq!(state_label(STATE_LISTENING), "listening");
    assert_eq!(state_label(STATE_PROCESSING), "processing");
    assert_eq!(state_label(STATE_PAUSED), "paused");
    assert_eq!(state_label(200), "listening");
}

#[test]
fn state_event_only_on_change() {
    assert_eq!(state_change_label(u8::MAX, STATE_LISTENING), Some("listening"));
    assert_eq!(state_change_label(STATE_LISTENING, STATE_LISTENING), None);
    assert_eq!(state_change_label(STATE_LISTENING, STATE_PAUSED), Some("paused"));
}

#[test]
fn first_pass_waits_for_two_seconds_of_audio() {
    let mut l = TranscriptionLoop::new(16000, 1);
    assert!(!l.on_poll(8000, false));
    assert!(!l.next_pass(false));
    for _ in 0..3 {
        assert!(!l.on_poll(8000, false));
    }
    assert_eq!(l.accumulated_len(), 32000);
    assert!(l.next_pass(false));
    assert_eq!(l.ui_state(), STATE_PROCESSING);
    assert_eq!(l.last_transcribed_len(), 32000);
    let out = l.on_pass_text(Some("  olá   mundo,tudo bem  "), 100);
    assert_eq!(l.ui_state(), STATE_LISTENING);
    let e = out.emission.expect("emission");
    assert_eq!(e.stable_text, "");
    assert_eq!(e.provisional_text, "Olá mundo, tudo bem");
    assert_eq!(e.full_text, "Olá mundo, tudo bem");
    assert!(!e.persist);
    assert_eq!(out.last_full_text.as_deref(), Some("Olá mundo, tudo bem"));
    assert!(!out.rolled_over);
    assert!(out.committed_segment.is_none());
    // Nothing new: no second pass over the same audio.
    assert!(!l.next_pass(false));
}

#[test]
fn silence_pauses_then_commits_a_paragraph() {
    let mut l = TranscriptionLoop::new(16000, 1);
    assert!(!l.on_poll(32000, false));
    assert!(l.next_pass(false));
    l.on_pass_text(Some("primeiro paragrafo."), 0);
    for poll in 1..=10u32 {
        let commit = l.on_poll(8000, true);
        if poll < 4 {
            assert_eq!(l.ui_state(), STATE_LISTENING);
        } else {
            assert_eq!(l.ui_state(), STATE_PAUSED);
        }
        assert_eq!(commit, poll == 10);
        // Silent chunks after text do not trigger another pass.
        if !commit {
            assert!(!l.next_pass(true));
        }
    }
    let p = l.on_paragraph_text(Some(" primeiro paragrafo. "));
    assert_eq!(p.committed_segment.as_deref(), Some("primeiro paragrafo."));
    assert_eq!(p.last_full_text.as_deref(), Some("Primeiro paragrafo.\n\n"));
    assert_eq!(l.accumulated_len(), 0);
    assert_eq!(l.last_transcribed_len(), 0);
    assert!(l.pending_paragraph_break());
    assert_eq!(l.committed(), &vec!["primeiro paragrafo.".to_string()]);

    // Speech resumes.
    assert!(!l.on_poll(32000, false));
    assert_eq!(l.ui_state(), STATE_LISTENING);
    assert!(l.next_pass(false));
    let out = l.on_pass_text(Some("segundo paragrafo"), 5000);
    let e = out.emission.expect("emission");
    assert_eq!(e.stable_text, "Primeiro paragrafo.");
    assert_eq!(e.provisional_text, "Segundo paragrafo");
    assert_eq!(e.full_text, "Primeiro paragrafo.\n\nSegundo paragrafo");
    assert!(e.persist);
    assert!(!l.pending_paragraph_break());
}

#[test]
fn a_failed_paragraph_pass_still_clears_the_buffer() {
    let mut l = TranscriptionLoop::new(16000, 1);
    for _ in 0..10 {
        l.on_poll(100, true);
    }
    let p = l.on_paragraph_text(None);
    assert!(p.committed_segment.is_none());
    assert!(p.last_full_text.is_none());
    assert_eq!(l.accumulated_len(), 0);
    assert!(!l.pending_paragraph_break());
}

#[test]
fn an_empty_buffer_is_not_committed_on_a_long_pause() {
    let mut l = TranscriptionLoop::new(16000, 1);
    for _ in 0..9 {
        assert!(!l.on_poll(0, true));
    }
    assert!(!l.on_poll(0, true));
}

#[test]
fn the_buffer_rolls_over_past_its_maximum() {
    let mut l = TranscriptionLoop::new(10, 1);
    assert!(!l.on_poll(1201, false));
    assert!(l.next_pass(false));
    let out = l.on_pass_text(Some("abc."), 0);
    assert!(out.rolled_over);
    assert_eq!(out.committed_segment.as_deref(), Some("abc."));
    assert_eq!(out.last_full_text.as_deref(), Some("Abc. "));
    assert_eq!(out.emission.expect("emission").full_text, "Abc.");
    assert_eq!(l.accumulated_len(), 0);
    assert_eq!(l.last_transcribed_len(), 0);

    // The next pass joins with a space: no paragraph break is pending.
    assert!(!l.on_poll(30, false));
    assert!(l.next_pass(false));
    let out = l.on_pass_text(Some("def"), 0);
    assert_eq!(out.emission.expect("emission").full_text, "Abc. Def");
}

#[test]
fn an_empty_pass_emits_nothing() {
    let mut l = TranscriptionLoop::new(10, 2);
    assert!(!l.on_poll(40, false));
    assert!(l.next_pass(false));
    let out = l.on_pass_text(Some("   "), 0);
    assert!(out.emission.is_none());
    assert!(out.last_full_text.is_none());
    assert_eq!(l.ui_state(), STATE_LISTENING);
}

#[test]
fn stop_uses_the_live_text_when_there_is_one() {
    let committed = vec!["a".to_string(), "b".to_string()];
    let plan = plan_stop("  texto final \n", &committed);
    assert_eq!(plan.partial_text, "texto final");
    assert_eq!(plan.fast_path_text.as_deref(), Some("texto final"));
    assert_eq!(plan.worker_seed, "a b");
}

#[test]
fn stop_falls_back_to_the_committed_segments() {
    let committed = vec!["a".to_string(), "b".to_string()];
    let plan = plan_stop("   ", &committed);
    assert_eq!(plan.partial_text, "a b");
    assert!(plan.fast_path_text.is_none());
    assert_eq!(plan.worker_seed, "a b");
    let plan = plan_stop("", &Vec::new());
    assert_eq!(plan.partial_text, "");
    assert!(plan.fast_path_text.is_none());
}

#[test]
fn pause_needs_four_silent_polls_in_a_row() {
    let mut l = TranscriptionLoop::new(16000, 1);
    for _ in 0..3 {
        l.on_poll(8000, true);
    }
    assert_eq!(l.ui_state(), STATE_LISTENING);
    l.on_poll(8000, false);
    for _ in 0..3 {
        l.on_poll(8000, true);
        assert_eq!(l.ui_state(), STATE_LISTENING);
    }
    l.on_poll(8000, true);
    assert_eq!(l.ui_state(), STATE_PAUSED);
    l.on_poll(8000, false);
    assert_eq!(l.ui_state(), STATE_LISTENING);
}

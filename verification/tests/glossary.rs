use martin::transcribe::glossary::{build_initial_prompt, MAX_PROMPT_CHARS};

#[test]
fn empty_terms_produce_no_prompt() {
    assert_eq!(build_initial_prompt(&[]), None);
}

#[test]
fn blank_terms_produce_no_prompt() {
    let terms = vec!["".to_string(), "   ".to_string()];
    assert_eq!(build_initial_prompt(&terms), None);
}

#[test]
fn single_term_is_the_prompt() {
    let terms = vec!["PipeWire".to_string()];
    assert_eq!(build_initial_prompt(&terms), Some("PipeWire".to_string()));
}

#[test]
fn terms_join_with_comma_and_space() {
    let terms = vec![
        "PipeWire".to_string(),
        "Tauri".to_string(),
        "Svelte".to_string(),
    ];
    assert_eq!(
        build_initial_prompt(&terms),
        Some("PipeWire, Tauri, Svelte".to_string())
    );
}

#[test]
fn terms_are_trimmed() {
    let terms = vec!["  PipeWire  ".to_string(), " Tauri".to_string()];
    assert_eq!(
        build_initial_prompt(&terms),
        Some("PipeWire, Tauri".to_string())
    );
}

#[test]
fn cap_is_measured_in_bytes_for_multibyte_terms() {
    // "ção" is 3 chars but 5 bytes; budget is consumed by bytes.
    let term = "ç".repeat(MAX_PROMPT_CHARS / 2 + 1); // > cap in bytes, < cap in chars
    assert_eq!(build_initial_prompt(&[term]), None);
}

#[test]
fn terms_beyond_the_cap_are_dropped_in_insertion_order() {
    // First term fills most of the cap; second still fits; third does not.
    let big = "x".repeat(MAX_PROMPT_CHARS - 10);
    let terms = vec![big.clone(), "12345678".to_string(), "dropped".to_string()];
    let prompt = build_initial_prompt(&terms).expect("prompt expected");
    assert_eq!(prompt, format!("{}, 12345678", big));
    assert!(prompt.len() <= MAX_PROMPT_CHARS);
}

#[test]
fn a_single_term_longer_than_the_cap_is_dropped() {
    let too_big = "x".repeat(MAX_PROMPT_CHARS + 1);
    assert_eq!(build_initial_prompt(&[too_big]), None);
}

// Further cases.

#[test]
fn a_term_that_exactly_fills_the_cap_is_kept() {
    let exact = "x".repeat(MAX_PROMPT_CHARS);
    assert_eq!(build_initial_prompt(&[exact.clone()]), Some(exact));
}

#[test]
fn the_first_term_that_does_not_fit_ends_the_prompt() {
    let big = "x".repeat(MAX_PROMPT_CHARS - 5);
    let terms = vec![big.clone(), "toolong".to_string(), "ok".to_string()];
    assert_eq!(build_initial_prompt(&terms), Some(big));
}

#[test]
fn blank_terms_between_others_are_skipped() {
    let terms = vec!["a".to_string(), " \t ".to_string(), "b".to_string()];
    assert_eq!(build_initial_prompt(&terms), Some("a, b".to_string()));
}

#[test]
fn trimming_uses_unicode_white_space() {
    let terms = vec!["\u{a0}Ação\u{2003}".to_string()];
    assert_eq!(build_initial_prompt(&terms), Some("Ação".to_string()));
}

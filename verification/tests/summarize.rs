use martin::summarize::build_prompt;

#[test]
fn build_prompt_includes_transcription_text() {
    let text = "Alice said hello. Bob replied.";
    let prompt = build_prompt(text);

    assert!(prompt.contains("Resuma esta transcrição de reunião"));
    assert!(prompt.contains("key points"));
    assert!(prompt.contains(text));
}

#[test]
fn build_prompt_handles_empty_text() {
    let prompt = build_prompt("");

    assert!(prompt.contains("Resuma esta transcrição de reunião"));
    assert!(prompt.ends_with("\n\n"));
}

#[test]
fn build_prompt_is_instruction_then_text() {
    assert_eq!(
        build_prompt("abc"),
        "Resuma esta transcrição de reunião. Inclua um resumo geral e os key points principais:\n\nabc"
    );
}

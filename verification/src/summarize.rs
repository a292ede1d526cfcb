//! The prompt that asks for a meeting summary.
use vstd::prelude::*;

verus! {

/// The instruction that precedes the transcription in a summary prompt.
pub open spec fn summary_instruction() -> Seq<char> {
    "Resuma esta transcrição de reunião. Inclua um resumo geral e os key points principais:\n\n"@
}

/// The prompt asking for a summary of `transcription_text`: a fixed instruction, a
/// blank line, then the text itself.
pub fn build_prompt(transcription_text: &str) -> (prompt: String)
    ensures
        prompt@ == summary_instruction() + transcription_text@,
{
    let prompt = String::from_str(
        "Resuma esta transcrição de reunião. Inclua um resumo geral e os key points principais:\n\n",
    );
    prompt.concat(transcription_text)
}

} // verus!

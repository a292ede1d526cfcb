//! Decisions around Whisper: how many threads it gets, and how its segments become
//! a transcript.
use vstd::prelude::*;
use crate::text;

verus! {

/// Pick how many threads whisper should use. Cap at 8 — whisper.cpp's matmul
/// kernels scale poorly past that, and over-subscription on weak machines
/// (where dictation lives) actively hurts. Floor at 1 so the caller can pass
/// `0` from `available_parallelism().get().saturating_sub(...)`.
pub fn whisper_thread_count_for(physical_cores: usize) -> (threads: i32)
    ensures
        threads == if physical_cores < 1 {
            1
        } else if physical_cores > 8 {
            8
        } else {
            physical_cores as int
        },
        1 <= threads <= 8,
{
    if physical_cores < 1 {
        1
    } else if physical_cores > 8 {
        8
    } else {
        physical_cores as i32
    }
}

/// The transcript made of Whisper's segments: joined with `separator` (a space for
/// sample buffers, a newline for files) and trimmed.
pub fn transcript_from_segments(segments: &Vec<String>, separator: &str) -> (transcript: String)
    ensures
        transcript@ == text::trim(text::join(text::views(segments@), separator@)),
{
    let joined = text::join_strings(segments, separator);
    text::trim_str(joined.as_str())
}

} // verus!

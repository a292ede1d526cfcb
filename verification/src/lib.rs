//! Verified core of a local meeting transcriber and dictation tool: text
//! post-processing, the live dictation state machine, glossary prompts, audio mixing
//! and the small decisions around capture, storage, models and transcription jobs.
pub mod audio;
pub mod db;
pub mod dictation;
pub mod model;
pub mod postprocess;
pub mod summarize;
pub mod text;
pub mod transcribe;

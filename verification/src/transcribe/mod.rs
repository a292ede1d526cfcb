pub mod glossary;
pub mod job;
pub mod whisper;

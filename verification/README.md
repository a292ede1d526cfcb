# martin

A local meeting transcriber and dictation tool. Audio is captured from the
microphone (and PipeWire system audio), transcribed with Whisper, post-processed
and stored in SQLite.

`src/` is the library, written in Verus and verified: text post-processing
(`postprocess`), the live dictation state machine and stop decisions
(`dictation`), glossary prompts, transcription jobs and transcript assembly
(`transcribe`), sample mixing and sink discovery (`audio`), store decisions
(`db`), model paths and download progress (`model`), the summary prompt
(`summarize`), and the character-level utilities they share (`text`).

`app/` is the application around it: audio devices, WAV files, the SQLite
database, Whisper inference, HTTP download, the Tauri commands, and the
floating-point audio processing (peak/RMS levels, downmixing, resampling).

`tests/` exercises the library.

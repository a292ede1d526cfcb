//! Decisions of live dictation. The capture callback, the transcription thread and
//! the level poller run in the application; every choice they make (when to pause,
//! when to transcribe, what text to show, when to commit a paragraph) is taken here,
//! as steps of a state machine over plain values.
use vstd::prelude::*;
use crate::postprocess;
use crate::text;

verus! {

/// Dictation state: capturing and waiting for speech.
pub const STATE_LISTENING: u8 = 0;
/// Dictation state: a transcription pass is running.
pub const STATE_PROCESSING: u8 = 1;
/// Dictation state: the speaker has been silent for a while.
pub const STATE_PAUSED: u8 = 2;

/// The label the frontend shows for a dictation state.
pub open spec fn spec_state_label(state: u8) -> Seq<char> {
    if state == STATE_PROCESSING {
        "processing"@
    } else if state == STATE_PAUSED {
        "paused"@
    } else {
        "listening"@
    }
}

/// The label of a dictation state as the frontend expects it; any unknown value is
/// "listening".
pub fn state_label(state: u8) -> (label: &'static str)
    ensures
        label@ == spec_state_label(state),
{
    match state {
        STATE_PROCESSING => "processing",
        STATE_PAUSED => "paused",
        _ => "listening",
    }
}


/// Polls of silence before the gap is a paragraph boundary (about five seconds).
pub const PARAGRAPH_PAUSE_POLLS: u32 = 10;
/// Polls of silence before the state shows "paused".
pub const PAUSED_STATE_POLLS: u32 = 4;
/// Seconds of audio needed before the first transcription pass.
pub const MIN_SECONDS_TO_TRANSCRIBE: usize = 2;
/// Seconds of audio after which the buffer rolls over.
pub const MAX_BUFFER_SECONDS: usize = 120;
/// Milliseconds between two saves of the partial text.
pub const PERSIST_INTERVAL_MS: u128 = 5000;

/// Which state event the level poller owes, when the state it last announced was
/// `last_emitted` and the state now is `current`: the label of `current` if it
/// changed, nothing otherwise.
pub fn state_change_label(last_emitted: u8, current: u8) -> (r: Option<&'static str>)
    ensures
        r is Some <==> current != last_emitted,
        r matches Some(label) ==> label@ == spec_state_label(current),
{
    if current != last_emitted {
        Some(state_label(current))
    } else {
        None
    }
}

/// The paragraph separator between committed segments.
pub open spec fn paragraph_sep() -> Seq<char> {
    seq!['\n', '\n']
}

/// The text after a paragraph commit, before new audio is transcribed: the committed
/// segments as paragraphs, normalized, followed by a paragraph break.
pub open spec fn paragraph_marker(committed: Seq<Seq<char>>) -> Seq<char> {
    postprocess::spec_normalize(text::join(committed, paragraph_sep())) + paragraph_sep()
}

/// The text after a size rollover: the committed segments, normalized, followed by a
/// space.
pub open spec fn rollover_marker(committed: Seq<Seq<char>>) -> Seq<char> {
    postprocess::spec_normalize(text::join(committed, paragraph_sep())) + seq![' ']
}

/// A transcription result, trimmed; an error counts as no text.
pub open spec fn pass_text(result: Option<Seq<char>>) -> Seq<char> {
    match result {
        Some(t) => text::trim(t),
        None => Seq::empty(),
    }
}

/// What a transcription pass shows: the committed (stable) text, the text of the
/// current pass (provisional), and the whole text, each normalized.
pub struct Emission {
    pub stable_text: String,
    pub provisional_text: String,
    pub full_text: String,
    /// Whether the partial row is due to be saved with `full_text`.
    pub persist: bool,
}

/// What the application does after a transcription pass.
pub struct PassOutcome {
    /// The segment event to emit, when the pass produced text.
    pub emission: Option<Emission>,
    /// A segment committed by a size rollover, to append to the committed list.
    pub committed_segment: Option<String>,
    /// The new value of the shared "last full text", when it changes.
    pub last_full_text: Option<String>,
    /// Whether the audio buffer rolled over (is to be cleared).
    pub rolled_over: bool,
}

/// What the application does after a paragraph commit.
pub struct ParagraphOutcome {
    /// The committed segment, to append to the committed list.
    pub committed_segment: Option<String>,
    /// The new value of the shared "last full text", when it changes.
    pub last_full_text: Option<String>,
}

/// The state of the live transcription loop. The application keeps the audio
/// itself; this keeps its length and every decision variable.
pub struct TranscriptionLoop {
    committed: Vec<String>,
    accumulated_len: usize,
    last_transcribed_len: usize,
    silent_polls: u32,
    pending_paragraph_break: bool,
    ui_state: u8,
    min_raw_samples: usize,
    max_raw_samples: usize,
}

impl TranscriptionLoop {
    /// The committed segments.
    pub closed spec fn committed_view(&self) -> Seq<Seq<char>> {
        text::views(self.committed@)
    }

    /// Raw samples accumulated since the last rollover.
    pub closed spec fn accumulated(&self) -> nat {
        self.accumulated_len as nat
    }

    /// Raw samples that the last pass covered (0 after a rollover).
    pub closed spec fn last_transcribed(&self) -> nat {
        self.last_transcribed_len as nat
    }

    /// Consecutive silent polls.
    pub closed spec fn silent_polls(&self) -> u32 {
        self.silent_polls
    }

    /// Whether a paragraph break waits for the next emission.
    pub closed spec fn pending_break(&self) -> bool {
        self.pending_paragraph_break
    }

    /// The state shown to the user (`STATE_*`).
    pub closed spec fn ui(&self) -> u8 {
        self.ui_state
    }

    /// Raw samples needed before transcribing.
    pub closed spec fn min_raw(&self) -> nat {
        self.min_raw_samples as nat
    }

    /// Raw samples after which the buffer rolls over.
    pub closed spec fn max_raw(&self) -> nat {
        self.max_raw_samples as nat
    }

    /// The loop's invariant: the last pass never covers more than the buffer holds,
    /// the state is a known one, "paused" is shown only after enough silent polls in a
    /// row, and every committed segment holds text.
    pub closed spec fn wf(&self) -> bool {
        &&& self.last_transcribed_len <= self.accumulated_len
        &&& self.ui_state <= STATE_PAUSED
        &&& self.ui_state == STATE_PAUSED ==> self.silent_polls >= PAUSED_STATE_POLLS
        &&& self.min_raw_samples <= self.max_raw_samples
        &&& forall|i: int| 0 <= i < self.committed@.len() ==> (#[trigger] self.committed@[i])@.len() > 0
    }

    /// Law: in every state the loop reaches, the last pass covers no more audio than
    /// the buffer holds, the state shown is one of the three known ones, "paused" is
    /// shown only when at least `PAUSED_STATE_POLLS` silent polls came in a row, the
    /// rollover size is at least the first-pass size, and every committed segment holds
    /// text.
    pub proof fn lemma_invariant(&self)
        requires
            self.wf(),
        ensures
            self.last_transcribed() <= self.accumulated(),
            self.ui() == STATE_LISTENING || self.ui() == STATE_PROCESSING || self.ui() == STATE_PAUSED,
            self.ui() == STATE_PAUSED ==> self.silent_polls() >= PAUSED_STATE_POLLS,
            self.min_raw() <= self.max_raw(),
            forall|i: int| 0 <= i < self.committed_view().len() ==> (#[trigger] self.committed_view()[i]).len() > 0,
    {
    }

    /// The loop for audio at `source_rate` Hz with `channels` interleaved channels:
    /// nothing accumulated or committed, listening.
    pub fn new(source_rate: u32, channels: u16) -> (l: Self)
        requires
            source_rate as int * channels as int * MAX_BUFFER_SECONDS as int <= usize::MAX,
        ensures
            l.wf(),
            l.committed_view() == Seq::<Seq<char>>::empty(),
            l.accumulated() == 0,
            l.last_transcribed() == 0,
            l.silent_polls() == 0,
            !l.pending_break(),
            l.ui() == STATE_LISTENING,
            l.min_raw() == source_rate as int * channels as int * MIN_SECONDS_TO_TRANSCRIBE as int,
            l.max_raw() == source_rate as int * channels as int * MAX_BUFFER_SECONDS as int,
    {
        let rate = source_rate as usize;
        let ch = channels as usize;
        proof {
            assert(rate as int * ch as int <= usize::MAX) by (nonlinear_arith)
                requires
                    rate as int * ch as int * 120 <= usize::MAX,
            ;
        }
        let per_second = rate * ch;
        let l = TranscriptionLoop {
            committed: Vec::new(),
            accumulated_len: 0,
            last_transcribed_len: 0,
            silent_polls: 0,
            pending_paragraph_break: false,
            ui_state: STATE_LISTENING,
            min_raw_samples: per_second * MIN_SECONDS_TO_TRANSCRIBE,
            max_raw_samples: per_second * MAX_BUFFER_SECONDS,
        };
        assert(l.committed_view() =~= Seq::<Seq<char>>::empty());
        l
    }

    /// The committed segments, as the stop path seeds the final pass with them.
    pub fn committed(&self) -> (r: &Vec<String>)
        ensures
            text::views(r@) == self.committed_view(),
    {
        &self.committed
    }

    /// Raw samples accumulated since the last rollover.
    pub fn accumulated_len(&self) -> (r: usize)
        ensures
            r == self.accumulated(),
    {
        self.accumulated_len
    }

    /// Raw samples that the last pass covered.
    pub fn last_transcribed_len(&self) -> (r: usize)
        ensures
            r == self.last_transcribed(),
    {
        self.last_transcribed_len
    }

    /// Whether a paragraph break waits for the next emission.
    pub fn pending_paragraph_break(&self) -> (r: bool)
        ensures
            r == self.pending_break(),
    {
        self.pending_paragraph_break
    }

    /// The state to show (`STATE_*`).
    pub fn ui_state(&self) -> (r: u8)
        ensures
            r == self.ui(),
    {
        self.ui_state
    }

    /// A poll drained `new_samples` raw samples; `chunk_silent` tells whether they
    /// were silence. Counts silent polls, shows "paused" after enough of them and
    /// "listening" again on speech. Returns whether the pause has just become a
    /// paragraph boundary with audio to commit: the application then transcribes the
    /// whole buffer and reports the result to `on_paragraph_text`.
    pub fn on_poll(&mut self, new_samples: usize, chunk_silent: bool) -> (commit_paragraph: bool)
        requires
            old(self).wf(),
            old(self).accumulated() + new_samples <= usize::MAX,
        ensures
            final(self).wf(),
            final(self).accumulated() == old(self).accumulated() + new_samples,
            final(self).silent_polls() == if chunk_silent {
                if old(self).silent_polls() == u32::MAX { u32::MAX } else { (old(self).silent_polls() + 1) as u32 }
            } else {
                0
            },
            final(self).ui() == if chunk_silent && final(self).silent_polls() >= PAUSED_STATE_POLLS {
                STATE_PAUSED
            } else if !chunk_silent && old(self).ui() == STATE_PAUSED {
                STATE_LISTENING
            } else {
                old(self).ui()
            },
            commit_paragraph == (chunk_silent && final(self).silent_polls() == PARAGRAPH_PAUSE_POLLS
                && final(self).accumulated() > 0),
            final(self).committed_view() == old(self).committed_view(),
            final(self).last_transcribed() == old(self).last_transcribed(),
            final(self).pending_break() == old(self).pending_break(),
            final(self).min_raw() == old(self).min_raw(),
            final(self).max_raw() == old(self).max_raw(),
    {
        self.accumulated_len = self.accumulated_len + new_samples;
        if chunk_silent {
            self.silent_polls = self.silent_polls.saturating_add(1);
        } else {
            self.silent_polls = 0;
        }
        let mut commit = false;
        if chunk_silent && self.silent_polls >= PAUSED_STATE_POLLS {
            self.ui_state = STATE_PAUSED;
            commit = self.silent_polls == PARAGRAPH_PAUSE_POLLS && self.accumulated_len > 0;
        } else if !chunk_silent && self.ui_state == STATE_PAUSED {
            self.ui_state = STATE_LISTENING;
        }
        commit
    }

    /// The paragraph pass ended with `result` (`None` when it failed). Its trimmed
    /// text, when there is any, is committed as a segment, a paragraph break is queued
    /// for the next emission, and the last full text becomes the committed paragraphs
    /// followed by a break. Either way the buffer is cleared.
    pub fn on_paragraph_text(&mut self, result: Option<&str>) -> (out: ParagraphOutcome)
        requires
            old(self).wf(),
        ensures
            final(self).wf(),
            final(self).accumulated() == 0,
            final(self).last_transcribed() == 0,
            pass_text(opt_view(result)).len() > 0 ==> {
                &&& final(self).committed_view() == old(self).committed_view().push(
                    pass_text(opt_view(result)),
                )
                &&& final(self).pending_break()
                &&& out.committed_segment matches Some(seg) && seg@ == pass_text(opt_view(result))
                &&& out.last_full_text matches Some(t) && t@ == paragraph_marker(
                    final(self).committed_view(),
                )
                &&& out.last_full_text matches Some(t) && t@ == postprocess::spec_normalize(
                    text::join(final(self).committed_view(), seq!['\n', '\n']),
                ) + seq!['\n', '\n']
            },
            pass_text(opt_view(result)).len() == 0 ==> {
                &&& final(self).committed_view() == old(self).committed_view()
                &&& final(self).pending_break() == old(self).pending_break()
                &&& out.committed_segment is None
                &&& out.last_full_text is None
            },
            final(self).silent_polls() == old(self).silent_polls(),
            final(self).ui() == old(self).ui(),
            final(self).min_raw() == old(self).min_raw(),
            final(self).max_raw() == old(self).max_raw(),
    {
        let text = trimmed_result(result);
        let mut out = ParagraphOutcome { committed_segment: None, last_full_text: None };
        if !text.as_str().is_empty() {
            let ghost before = self.committed@;
            self.committed.push(text.clone());
            assert(text::views(self.committed@) =~= text::views(before).push(text@));
            self.pending_paragraph_break = true;
            let marker = committed_with_break(&self.committed, "\n\n");
            proof {
                reveal_strlit("\n\n");
                assert("\n\n"@ =~= paragraph_sep());
            }
            out = ParagraphOutcome { committed_segment: Some(text), last_full_text: Some(marker) };
        }
        self.accumulated_len = 0;
        self.last_transcribed_len = 0;
        out
    }
}

/// The separator between the committed segments and the current pass: a paragraph
/// break when one is pending, a space otherwise.
pub open spec fn pass_sep(pending_break: bool) -> Seq<char> {
    if pending_break {
        paragraph_sep()
    } else {
        seq![' ']
    }
}

/// The committed segments joined with the pass separator.
pub open spec fn stable_text(committed: Seq<Seq<char>>, pending_break: bool) -> Seq<char> {
    text::join(committed, pass_sep(pending_break))
}

/// The whole text of a pass before normalization: the stable text, the separator and
/// the pass text (just the pass text while nothing is committed).
pub open spec fn raw_full_text(committed: Seq<Seq<char>>, pending_break: bool, pass: Seq<char>) -> Seq<char> {
    let stable = stable_text(committed, pending_break);
    if stable.len() == 0 {
        pass
    } else {
        stable + pass_sep(pending_break) + pass
    }
}

impl TranscriptionLoop {
    /// Whether a transcription pass is due after a poll whose chunk was `chunk_silent`:
    /// enough audio, some of it not yet transcribed, and not a silent chunk after text
    /// was already produced. When it is due, the pass is recorded as covering the whole
    /// buffer and the state shows "processing"; the application then transcribes the
    /// buffer and reports the result to `on_pass_text`.
    pub fn next_pass(&mut self, chunk_silent: bool) -> (transcribe: bool)
        requires
            old(self).wf(),
        ensures
            final(self).wf(),
            transcribe == (!(old(self).accumulated() < old(self).min_raw() || old(self).accumulated()
                == old(self).last_transcribed()) && !(chunk_silent && old(self).last_transcribed()
                > 0)),
            final(self).last_transcribed() == if transcribe {
                old(self).accumulated()
            } else {
                old(self).last_transcribed()
            },
            final(self).ui() == if transcribe { STATE_PROCESSING } else { old(self).ui() },
            final(self).accumulated() == old(self).accumulated(),
            final(self).committed_view() == old(self).committed_view(),
            final(self).silent_polls() == old(self).silent_polls(),
            final(self).pending_break() == old(self).pending_break(),
            final(self).min_raw() == old(self).min_raw(),
            final(self).max_raw() == old(self).max_raw(),
    {
        if self.accumulated_len < self.min_raw_samples || self.accumulated_len == self.last_transcribed_len {
            return false;
        }
        if chunk_silent && self.last_transcribed_len > 0 {
            return false;
        }
        self.last_transcribed_len = self.accumulated_len;
        self.ui_state = STATE_PROCESSING;
        true
    }

    /// The pass ended with `result` (`None` when it failed), `ms_since_persist`
    /// milliseconds after the partial row was last saved. The state returns from
    /// "processing" to "listening". When the pass produced text, the segment event
    /// carries the normalized stable, provisional and full texts, the pending paragraph
    /// break is consumed, and the full text becomes the last full text. When the buffer
    /// exceeds its maximum it rolls over: the pass text, if any, is committed and the
    /// last full text becomes the committed segments followed by a space.
    pub fn on_pass_text(&mut self, result: Option<&str>, ms_since_persist: u128) -> (out: PassOutcome)
        requires
            old(self).wf(),
        ensures
            final(self).wf(),
            ({
                let pass = pass_text(opt_view(result));
                let rolled = old(self).accumulated() > old(self).max_raw();
                &&& final(self).ui() == if old(self).ui() == STATE_PROCESSING {
                    STATE_LISTENING
                } else {
                    old(self).ui()
                }
                &&& pass.len() > 0 ==> (out.emission matches Some(e) && {
                    &&& e.stable_text@ == postprocess::spec_normalize(
                        stable_text(old(self).committed_view(), old(self).pending_break()),
                    )
                    &&& e.provisional_text@ == postprocess::spec_normalize(pass)
                    &&& e.full_text@ == postprocess::spec_normalize(
                        raw_full_text(old(self).committed_view(), old(self).pending_break(), pass),
                    )
                    &&& e.stable_text@ == postprocess::spec_normalize(
                        text::join(
                            old(self).committed_view(),
                            if old(self).pending_break() {
                                seq!['\n', '\n']
                            } else {
                                seq![' ']
                            },
                        ),
                    )
                    &&& e.full_text@ == postprocess::spec_normalize(
                        text::join(
                            old(self).committed_view().push(pass),
                            if old(self).pending_break() {
                                seq!['\n', '\n']
                            } else {
                                seq![' ']
                            },
                        ),
                    )
                    &&& e.persist == (ms_since_persist >= PERSIST_INTERVAL_MS)
                    &&& !final(self).pending_break()
                })
                &&& pass.len() == 0 ==> out.emission is None && final(self).pending_break()
                    == old(self).pending_break()
                &&& out.rolled_over == rolled
                &&& rolled && pass.len() > 0 ==> {
                    &&& final(self).committed_view() == old(self).committed_view().push(pass)
                    &&& out.committed_segment matches Some(seg) && seg@ == pass
                    &&& out.last_full_text matches Some(t) && t@ == rollover_marker(
                        final(self).committed_view(),
                    )
                    &&& out.last_full_text matches Some(t) && t@ == postprocess::spec_normalize(
                        text::join(final(self).committed_view(), seq!['\n', '\n']),
                    ) + seq![' ']
                }
                &&& !(rolled && pass.len() > 0) ==> {
                    &&& final(self).committed_view() == old(self).committed_view()
                    &&& out.committed_segment is None
                    &&& pass.len() > 0 ==> (out.last_full_text matches Some(t) && out.emission
                        matches Some(e) && t@ == e.full_text@)
                    &&& pass.len() == 0 ==> out.last_full_text is None
                }
                &&& final(self).accumulated() == if rolled { 0 } else { old(self).accumulated() }
                &&& final(self).last_transcribed() == if rolled {
                    0
                } else {
                    old(self).last_transcribed()
                }
            }),
            final(self).silent_polls() == old(self).silent_polls(),
            final(self).min_raw() == old(self).min_raw(),
            final(self).max_raw() == old(self).max_raw(),
    {
        let pass = trimmed_result(result);
        proof {
            if pass@.len() > 0 {
                lemma_raw_full_text_join(self.committed_view(), self.pending_break(), pass@);
            }
        }
        if self.ui_state == STATE_PROCESSING {
            self.ui_state = STATE_LISTENING;
        }
        let mut emission: Option<Emission> = None;
        let mut last_full_text: Option<String> = None;
        if !pass.as_str().is_empty() {
            let sep: &str = if self.pending_paragraph_break { "\n\n" } else { " " };
            proof {
                reveal_strlit("\n\n");
                reveal_strlit(" ");
                assert(sep@ =~= pass_sep(self.pending_paragraph_break));
            }
            let stable = text::join_strings(&self.committed, sep);
            proof {
                lemma_join_empty_iff(text::views(self.committed@), sep@);
            }
            let raw_full = if stable.as_str().is_empty() {
                pass.clone()
            } else {
                stable.clone().concat(sep).concat(pass.as_str())
            };
            self.pending_paragraph_break = false;
            let full_text = postprocess::normalize(raw_full.as_str());
            let stable_text = postprocess::normalize(stable.as_str());
            let provisional_text = postprocess::normalize(pass.as_str());
            last_full_text = Some(full_text.clone());
            emission = Some(Emission {
                stable_text,
                provisional_text,
                full_text,
                persist: ms_since_persist >= PERSIST_INTERVAL_MS,
            });
        }
        let mut committed_segment: Option<String> = None;
        let rolled_over = self.accumulated_len > self.max_raw_samples;
        if rolled_over {
            if !pass.as_str().is_empty() {
                let ghost before = self.committed@;
                self.committed.push(pass.clone());
                assert(text::views(self.committed@) =~= text::views(before).push(pass@));
                let marker = committed_with_break(&self.committed, " ");
                proof {
                    reveal_strlit(" ");
                }
                committed_segment = Some(pass);
                last_full_text = Some(marker);
            }
            self.accumulated_len = 0;
            self.last_transcribed_len = 0;
        }
        PassOutcome { emission, committed_segment, last_full_text, rolled_over }
    }
}

/// The whole text of a pass is the committed segments and the pass text joined by the
/// pass separator.
proof fn lemma_raw_full_text_join(committed: Seq<Seq<char>>, pending_break: bool, pass: Seq<char>)
    requires
        forall|i: int| 0 <= i < committed.len() ==> (#[trigger] committed[i]).len() > 0,
    ensures
        raw_full_text(committed, pending_break, pass) == text::join(
            committed.push(pass),
            pass_sep(pending_break),
        ),
{
    let sep = pass_sep(pending_break);
    lemma_join_empty_iff(committed, sep);
    if committed.len() > 0 {
        assert(committed.push(pass).drop_last() =~= committed);
    }
}

/// A join of non-empty parts is empty exactly when there are no parts.
proof fn lemma_join_empty_iff(parts: Seq<Seq<char>>, sep: Seq<char>)
    requires
        forall|i: int| 0 <= i < parts.len() ==> (#[trigger] parts[i]).len() > 0,
    ensures
        text::join(parts, sep).len() == 0 <==> parts.len() == 0,
    decreases parts.len(),
{
    if parts.len() > 1 {
        assert(parts.last() == parts[parts.len() - 1]);
    } else if parts.len() == 1 {
        assert(parts[0].len() > 0);
    }
}

/// The view of an optional string slice.
pub open spec fn opt_view(result: Option<&str>) -> Option<Seq<char>> {
    match result {
        Some(t) => Some(t@),
        None => None,
    }
}

/// A transcription result, trimmed; an error counts as no text.
fn trimmed_result(result: Option<&str>) -> (r: String)
    ensures
        r@ == pass_text(opt_view(result)),
{
    match result {
        Some(t) => text::trim_str(t),
        None => String::new(),
    }
}

/// The committed segments joined as paragraphs and normalized, followed by `tail`.
fn committed_with_break(committed: &Vec<String>, tail: &str) -> (r: String)
    ensures
        r@ == postprocess::spec_normalize(text::join(text::views(committed@), paragraph_sep()))
            + tail@,
{
    let joined = text::join_strings(committed, "\n\n");
    proof {
        reveal_strlit("\n\n");
        assert("\n\n"@ =~= paragraph_sep());
    }
    let normalized = postprocess::normalize(joined.as_str());
    normalized.concat(tail)
}

/// How a stopped dictation is saved.
pub struct StopPlan {
    /// The text stored in the partial row right away (empty: none stored).
    pub partial_text: String,
    /// When the live loop already produced text for all the audio: that text, saved
    /// as final without another transcription pass.
    pub fast_path_text: Option<String>,
    /// The committed segments, joined: the seed of the final pass otherwise.
    pub worker_seed: String,
}

/// What `plan_stop` decides.
pub open spec fn spec_worker_seed(committed: Seq<Seq<char>>) -> Seq<char> {
    text::trim(text::join(committed, seq![' ']))
}

/// Decides how to save a stopped dictation from the last full text of the live loop
/// and its committed segments. The live text, trimmed, is final when it is not empty
/// (no second pass over the same audio); otherwise the committed segments, joined by
/// spaces and trimmed, seed the final pass, and they are the partial text meanwhile.
pub fn plan_stop(last_full_text: &str, committed: &Vec<String>) -> (plan: StopPlan)
    ensures
        plan.worker_seed@ == spec_worker_seed(text::views(committed@)),
        text::trim(last_full_text@).len() > 0 ==> {
            &&& plan.partial_text@ == text::trim(last_full_text@)
            &&& plan.fast_path_text matches Some(t) && t@ == text::trim(last_full_text@)
        },
        text::trim(last_full_text@).len() == 0 ==> {
            &&& plan.partial_text@ == spec_worker_seed(text::views(committed@))
            &&& plan.fast_path_text is None
        },
{
    let joined = text::join_strings(committed, " ");
    proof {
        reveal_strlit(" ");
        assert(" "@ =~= seq![' ']);
    }
    let worker_seed = text::trim_str(joined.as_str());
    let live = text::trim_str(last_full_text);
    if !live.as_str().is_empty() {
        StopPlan { partial_text: live.clone(), fast_path_text: Some(live), worker_seed }
    } else {
        StopPlan { partial_text: worker_seed.clone(), fast_path_text: None, worker_seed }
    }
}

} // verus!

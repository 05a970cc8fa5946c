//! Continuation controller: drives request/response rounds until the model
//! signals a non-truncated answer or the round budget runs out.
//!
//! The controller owns all per-request mutable state — the transcript, the
//! emission gate, the working message list, the transport mode — and decides
//! every step from plain values. The application performs the network calls
//! it asks for and hands the raw replies back.
use vstd::prelude::*;
use crate::chat::{ChatMessage, chat_message, clone_messages, same_messages};
use crate::dedup::{append_chunk_with_overlap, dedup_appended};
use crate::gate::{GateView, LiveEmitGate, gate_init, gate_push_spec, gate_finalize_spec};
use crate::provider::{ProviderKind, HttpErrorClass, classify_http_error, classify_spec, lower_of,
    stream_event_of, decode_stream_event, batch_reply_of, decode_batch_reply, is_length_capped,
    length_capped_reason};
use crate::sse::{sse_lines_of, sse_remainder_of, sse_drain_lines, sse_payload_of, sse_payload,
    done_sentinel, is_done_sentinel};
use crate::text::{append_str, trim_spec, str_trim};

verus! {

/// The fixed output-token ceiling set when a server demands one, and the
/// ceiling every Anthropic-schema request carries.
pub const FALLBACK_CHUNK_MAX_TOKENS: u32 = 32000;

/// How many continuation rounds may follow the first round.
pub const MAX_CONTINUATIONS: usize = 64;

/// The instruction appended for a continuation round.
pub open spec fn continue_prompt() -> Seq<char> {
    "Continue from exactly where you stopped. Do not repeat prior text."@
}

/// The notice appended when the budget runs out while still truncated.
pub open spec fn truncation_notice() -> Seq<char> {
    "\n\n[output may be truncated after repeated continuations]"@
}

/// The per-round text-processing state: the authoritative transcript, the
/// emission gate, this round's unique text, and the completion reason seen.
#[verifier::ext_equal]
pub struct RoundState {
    pub transcript: Seq<char>,
    pub gate: GateView,
    pub round_unique: Seq<char>,
    pub finish: Option<String>,
}

/// One text delta: deduplicate against the transcript, append the unique
/// suffix to transcript and round text, and gate it for the live display.
pub open spec fn apply_delta_spec(st: RoundState, text: Seq<char>) -> (RoundState, Seq<char>) {
    let unique = dedup_appended(st.transcript, text);
    let g = gate_push_spec(st.gate, unique);
    (
        RoundState {
            transcript: st.transcript + unique,
            gate: g.0,
            round_unique: st.round_unique + unique,
            finish: st.finish,
        },
        g.1,
    )
}

/// One normalized event: its delta, then its completion reason.
pub open spec fn apply_event_spec(st: RoundState, ev: (Option<String>, Option<String>)) -> (
    RoundState,
    Seq<char>,
) {
    let step = match ev.0 {
        Option::Some(t) => apply_delta_spec(st, t@),
        Option::None => (st, Seq::empty()),
    };
    (
        RoundState {
            finish: match ev.1 {
                Option::Some(r) => Option::Some(r),
                Option::None => step.0.finish,
            },
            ..step.0
        },
        step.1,
    )
}

/// One payload: empty payloads and the end sentinel are skipped; a payload
/// that is not well-formed JSON is a hard decode error carrying its message.
pub open spec fn process_payload_spec(kind: ProviderKind, st: RoundState, p: Seq<char>) -> Result<
    (RoundState, Seq<char>),
    Seq<char>,
> {
    if p.len() == 0 || p == done_sentinel() {
        Result::Ok((st, Seq::empty()))
    } else {
        match stream_event_of(kind, p) {
            Option::Some(ev) => Result::Ok(apply_event_spec(st, ev)),
            Option::None => Result::Err("stream parse failed; data="@ + p),
        }
    }
}

/// One line: lines without the event prefix are ignored.
pub open spec fn process_line_spec(kind: ProviderKind, st: RoundState, line: Seq<char>) -> Result<
    (RoundState, Seq<char>),
    Seq<char>,
> {
    match sse_payload_of(line) {
        Option::Some(p) => process_payload_spec(kind, st, p),
        Option::None => Result::Ok((st, Seq::empty())),
    }
}

/// A run of lines, stopping at the first decode error; the error carries the
/// state and emission up to that point together with the message.
pub open spec fn process_lines_spec(
    kind: ProviderKind,
    st: RoundState,
    lines: Seq<Seq<char>>,
) -> Result<(RoundState, Seq<char>), (RoundState, Seq<char>, Seq<char>)>
    decreases lines.len(),
{
    if lines.len() == 0 {
        Result::Ok((st, Seq::empty()))
    } else {
        match process_line_spec(kind, st, lines[0]) {
            Result::Ok((st1, em1)) => match process_lines_spec(kind, st1, lines.skip(1)) {
                Result::Ok((st2, em2)) => Result::Ok((st2, em1 + em2)),
                Result::Err((st2, em2, msg)) => Result::Err((st2, em1 + em2, msg)),
            },
            Result::Err(msg) => Result::Err((st, Seq::empty(), msg)),
        }
    }
}

/// The abstract state of a [`Controller`].
#[verifier::ext_equal]
pub struct ControllerView {
    pub kind: ProviderKind,
    pub round_budget: int,
    pub round: int,
    pub stream_supported: bool,
    pub fallback_ceiling: bool,
    pub ceiling_always: bool,
    pub messages: Seq<ChatMessage>,
    pub transcript: Seq<char>,
    pub gate: GateView,
    pub round_unique: Seq<char>,
    pub finish: Option<String>,
    pub sse_buf: Seq<char>,
    pub done: bool,
}

/// The round-processing slice of the controller state.
pub open spec fn round_state_of(cv: ControllerView) -> RoundState {
    RoundState {
        transcript: cv.transcript,
        gate: cv.gate,
        round_unique: cv.round_unique,
        finish: cv.finish,
    }
}

/// The controller state with its round-processing slice replaced.
pub open spec fn with_round_state(cv: ControllerView, st: RoundState) -> ControllerView {
    ControllerView {
        transcript: st.transcript,
        gate: st.gate,
        round_unique: st.round_unique,
        finish: st.finish,
        ..cv
    }
}

/// One concrete request the application is asked to send.
pub struct RoundRequest {
    /// Ask for chunked delivery.
    pub stream: bool,
    /// Set the fixed output-token ceiling on the request body.
    pub include_ceiling: bool,
    /// The messages of this round, continuation turns included.
    pub messages: Vec<ChatMessage>,
}

/// How a transport-level attempt ended short of a completed round.
pub enum AttemptOutcome {
    /// A hard decode error: the request is over; the message is for the
    /// terminal error notification.
    Failed(String),
    /// A silent stream failure: retry the round over batch transport; not
    /// counted against the round budget.
    RetrySilent,
    /// The round's text and completion reason are gathered.
    Completed,
}

/// What follows a completed round.
pub enum RoundVerdict {
    /// The reply was length-capped and budget remains: send the next
    /// continuation round.
    NextRound,
    /// The request is finished; the transcript is the result.
    Done,
}

/// Drives one completion request; see the module description.
pub struct Controller {
    kind: ProviderKind,
    round_budget: usize,
    round: usize,
    stream_supported: bool,
    fallback_ceiling: bool,
    ceiling_always: bool,
    messages: Vec<ChatMessage>,
    transcript: String,
    gate: LiveEmitGate,
    round_unique: String,
    finish: Option<String>,
    sse_buf: String,
    done: bool,
}

impl View for Controller {
    type V = ControllerView;

    closed spec fn view(&self) -> ControllerView {
        ControllerView {
            kind: self.kind,
            round_budget: self.round_budget as int,
            round: self.round as int,
            stream_supported: self.stream_supported,
            fallback_ceiling: self.fallback_ceiling,
            ceiling_always: self.ceiling_always,
            messages: self.messages@,
            transcript: self.transcript@,
            gate: self.gate@,
            round_unique: self.round_unique@,
            finish: self.finish,
            sse_buf: self.sse_buf@,
            done: self.done,
        }
    }
}

impl Controller {
    /// A fresh request over the given conversation, with the given total
    /// round budget (the first round plus the allowed continuations).
    pub fn new(kind: ProviderKind, messages: Vec<ChatMessage>, round_budget: usize) -> (r: Self)
        requires
            round_budget >= 1,
        ensures
            r@.kind == kind,
            r@.round_budget == round_budget,
            r@.round == 0,
            r@.stream_supported,
            !r@.fallback_ceiling,
            r@.ceiling_always == (kind is Anthropic),
            r@.messages == messages@,
            r@.transcript.len() == 0,
            r@.gate == gate_init(),
            r@.round_unique.len() == 0,
            r@.finish is None,
            r@.sse_buf.len() == 0,
            !r@.done,
    {
        let ceiling_always = match kind {
            ProviderKind::Anthropic => true,
            _ => false,
        };
        let r = Controller {
            kind,
            round_budget,
            round: 0,
            stream_supported: true,
            fallback_ceiling: false,
            ceiling_always,
            messages,
            transcript: String::new(),
            gate: LiveEmitGate::new(),
            round_unique: String::new(),
            finish: None,
            sse_buf: String::new(),
            done: false,
        };
        r
    }

    /// A fresh request with the default round budget: one round plus
    /// [`MAX_CONTINUATIONS`] continuations.
    pub fn new_default(kind: ProviderKind, messages: Vec<ChatMessage>) -> (r: Self)
        ensures
            r@.kind == kind,
            r@.round_budget == MAX_CONTINUATIONS + 1,
            r@.round == 0,
            r@.stream_supported,
            !r@.fallback_ceiling,
            r@.ceiling_always == (kind is Anthropic),
            r@.messages == messages@,
            r@.transcript.len() == 0,
            r@.gate == gate_init(),
            r@.round_unique.len() == 0,
            r@.finish is None,
            r@.sse_buf.len() == 0,
            !r@.done,
    {
        Controller::new(kind, messages, MAX_CONTINUATIONS + 1)
    }

    /// The request the current attempt should send: streaming while the
    /// endpoint has not refused it, the ceiling when this provider always
    /// sets one or the server demanded it this round.
    pub fn next_request(&self) -> (r: RoundRequest)
        requires
            !self@.done,
        ensures
            r.stream == self@.stream_supported,
            r.include_ceiling == (self@.fallback_ceiling || self@.ceiling_always),
            same_messages(r.messages@, self@.messages),
    {
        RoundRequest {
            stream: self.stream_supported,
            include_ceiling: self.fallback_ceiling || self.ceiling_always,
            messages: clone_messages(&self.messages),
        }
    }

    /// Classifies a non-success response and applies the recovery it allows:
    /// demand for an output-token ceiling sets the ceiling for a retry of
    /// this round, rejection of streaming falls back to batch transport for
    /// the rest of the request, anything else ends the request.
    pub fn on_http_failure(&mut self, client_error: bool, body: &str) -> (r: HttpErrorClass)
        requires
            !old(self)@.done,
        ensures
            r == classify_spec(
                lower_of(body@),
                client_error,
                !old(self)@.fallback_ceiling && !old(self)@.ceiling_always,
                old(self)@.stream_supported,
            ),
            r is MissingMaxTokens ==> final(self)@ == (ControllerView {
                fallback_ceiling: true,
                ..old(self)@
            }),
            r is StreamUnsupported ==> final(self)@ == (ControllerView {
                stream_supported: false,
                ..old(self)@
            }),
            r is Fatal ==> final(self)@ == (ControllerView { done: true, ..old(self)@ }),
    {
        let ceiling_retry = !self.fallback_ceiling && !self.ceiling_always;
        let cls = classify_http_error(body, client_error, ceiling_retry, self.stream_supported);
        match cls {
            HttpErrorClass::MissingMaxTokens => {
                self.fallback_ceiling = true;
            },
            HttpErrorClass::StreamUnsupported => {
                self.stream_supported = false;
            },
            HttpErrorClass::Fatal => {
                self.done = true;
            },
        }
        cls
    }

    /// One text delta of the current round.
    fn apply_delta(&mut self, text: &str) -> (emitted: String)
        ensures
            ({
                let step = apply_delta_spec(round_state_of(old(self)@), text@);
                final(self)@ == with_round_state(old(self)@, step.0) && emitted@ == step.1
            }),
    {
        let (_, unique) = append_chunk_with_overlap(&mut self.transcript, text);
        append_str(&mut self.round_unique, unique.as_str());
        let emitted = self.gate.push(unique.as_str());
        proof {
            let step = apply_delta_spec(round_state_of(old(self)@), text@);
            assert(final(self)@ =~~= with_round_state(old(self)@, step.0));
        }
        emitted
    }

    /// One complete line of a chunked response body.
    fn on_stream_line(&mut self, line: &str) -> (r: (String, Option<String>))
        ensures
            ({
                let res = process_line_spec(old(self)@.kind, round_state_of(old(self)@), line@);
                match res {
                    Result::Ok((st, em)) => r.1 is None && r.0@ == em && final(self)@
                        == with_round_state(old(self)@, st),
                    Result::Err(msg) => r.1 matches Some(m) && m@ == msg && r.0@.len() == 0
                        && final(self)@ == old(self)@,
                }
            }),
    {
        let payload = match sse_payload(line) {
            Some(p) => p,
            None => {
                proof {
                    assert(final(self)@ =~~= with_round_state(old(self)@, round_state_of(
                        old(self)@,
                    )));
                }
                return (String::new(), None);
            },
        };
        if payload.as_str().is_empty() || is_done_sentinel(payload.as_str()) {
            proof {
                assert(final(self)@ =~~= with_round_state(old(self)@, round_state_of(old(self)@)));
            }
            return (String::new(), None);
        }
        match decode_stream_event(self.kind, payload.as_str()) {
            Ok(ev) => {
                let emitted = match &ev.content {
                    Some(t) => {
                        let text = t.clone();
                        self.apply_delta(text.as_str())
                    },
                    None => String::new(),
                };
                match ev.finish_reason {
                    Some(reason) => {
                        self.finish = Some(reason);
                    },
                    None => {},
                }
                proof {
                    let res = process_line_spec(old(self)@.kind, round_state_of(old(self)@), line@);
                    assert(final(self)@ =~~= with_round_state(old(self)@, res->Ok_0.0));
                }
                (emitted, None)
            },
            Err(m) => (String::new(), Some(m)),
        }
    }

    /// Feeds one chunk of a streaming response body: completes buffered
    /// lines, decodes each event, deduplicates and gates its text. Returns
    /// what may be shown live, and the terminal decode error if one line's
    /// payload was malformed (the request is then over).
    pub fn on_stream_chunk(&mut self, data: &str) -> (r: (String, Option<String>))
        requires
            !old(self)@.done,
        ensures
            ({
                let combined = old(self)@.sse_buf + data@;
                let res = process_lines_spec(
                    old(self)@.kind,
                    round_state_of(old(self)@),
                    sse_lines_of(combined),
                );
                match res {
                    Result::Ok((st, em)) => r.1 is None && r.0@ == em && final(self)@
                        == ControllerView {
                        sse_buf: sse_remainder_of(combined),
                        ..with_round_state(old(self)@, st)
                    },
                    Result::Err((st, em, msg)) => r.1 matches Some(m) && m@ == msg && r.0@ == em
                        && final(self)@ == ControllerView {
                        done: true,
                        sse_buf: sse_remainder_of(combined),
                        ..with_round_state(old(self)@, st)
                    },
                }
            }),
    {
        append_str(&mut self.sse_buf, data);
        let ghost combined = self.sse_buf@;
        let lines = sse_drain_lines(&mut self.sse_buf);
        let ghost all_lines = sse_lines_of(combined);
        let mut emitted = String::new();
        let mut i: usize = 0;
        let ghost st0 = round_state_of(old(self)@);
        proof {
            assert(lines@.map_values(|l: String| l@) == all_lines);
        }
        while i < lines.len()
            invariant
                !old(self)@.done,
                combined == old(self)@.sse_buf + data@,
                all_lines == sse_lines_of(combined),
                lines@.map_values(|l: String| l@) == all_lines,
                crate::sse::views_of(lines@) == all_lines,
                i <= lines@.len(),
                st0 == round_state_of(old(self)@),
                self@.kind == old(self)@.kind,
                process_lines_spec(old(self)@.kind, st0, all_lines.take(i as int)) == Result::<
                    (RoundState, Seq<char>),
                    (RoundState, Seq<char>, Seq<char>),
                >::Ok((round_state_of(self@), emitted@)),
                self@ == (ControllerView {
                    sse_buf: sse_remainder_of(combined),
                    ..with_round_state(old(self)@, round_state_of(self@))
                }),
            decreases lines@.len() - i,
        {
            let line = &lines[i];
            let ghost st_before = round_state_of(self@);
            let ghost em_before = emitted@;
            let (em, err) = self.on_stream_line(line.as_str());
            append_str(&mut emitted, em.as_str());
            match err {
                Some(m) => {
                    proof {
                        assert(emitted@ =~= em_before);
                        assert(all_lines[i as int] == lines@[i as int]@);
                        lemma_process_lines_take_err(
                            old(self)@.kind,
                            st0,
                            all_lines,
                            i as int,
                            st_before,
                            em_before,
                            m@,
                        );
                    }
                    self.done = true;
                    proof {
                        assert(final(self)@ =~~= (ControllerView {
                            done: true,
                            sse_buf: sse_remainder_of(combined),
                            ..with_round_state(old(self)@, st_before)
                        }));
                    }
                    return (emitted, Some(m));
                },
                None => {},
            }
            i = i + 1;
            proof {
                lemma_process_lines_take_ok(
                    old(self)@.kind,
                    st0,
                    all_lines,
                    i as int,
                );
            }
        }
        proof {
            assert(all_lines.take(all_lines.len() as int) =~= all_lines);
        }
        (emitted, None)
    }

    /// Ends a streaming attempt: a non-blank unterminated buffer tail is
    /// treated as one final record, then the attempt is judged. No unique
    /// text and no completion reason is a silent stream failure: fall back
    /// to batch and retry the round, not counted against the budget.
    pub fn on_stream_end(&mut self) -> (r: (String, AttemptOutcome))
        requires
            !old(self)@.done,
        ensures
            ({
                let tail = trim_spec(old(self)@.sse_buf);
                let res = if tail.len() == 0 {
                    Result::<(RoundState, Seq<char>), Seq<char>>::Ok(
                        (round_state_of(old(self)@), Seq::empty()),
                    )
                } else {
                    process_line_spec(old(self)@.kind, round_state_of(old(self)@), tail)
                };
                match res {
                    Result::Ok((st, em)) => {
                        r.0@ == em && if st.round_unique.len() == 0 && st.finish is None {
                            r.1 is RetrySilent && final(self)@ == ControllerView {
                                stream_supported: false,
                                sse_buf: Seq::empty(),
                                ..with_round_state(old(self)@, st)
                            }
                        } else {
                            r.1 is Completed && final(self)@ == ControllerView {
                                sse_buf: Seq::empty(),
                                ..with_round_state(old(self)@, st)
                            }
                        }
                    },
                    Result::Err(msg) => r.0@.len() == 0 && (r.1 matches AttemptOutcome::Failed(m)
                        && m@ == msg) && final(self)@ == (ControllerView {
                        done: true,
                        sse_buf: Seq::empty(),
                        ..old(self)@
                    }),
                }
            }),
    {
        let tail = str_trim(self.sse_buf.as_str());
        self.sse_buf = String::new();
        let mut emitted = String::new();
        if !tail.as_str().is_empty() {
            let (em, err) = self.on_stream_line(tail.as_str());
            match err {
                Some(m) => {
                    self.done = true;
                    proof {
                        assert(final(self)@ =~~= ControllerView {
                            done: true,
                            sse_buf: Seq::empty(),
                            ..old(self)@
                        });
                    }
                    return (String::new(), AttemptOutcome::Failed(m));
                },
                None => {},
            }
            emitted = em;
        }
        let silent = self.round_unique.as_str().is_empty() && match &self.finish {
            Some(_) => false,
            None => true,
        };
        if silent {
            self.stream_supported = false;
            proof {
                assert(final(self)@ =~~= ControllerView {
                    stream_supported: false,
                    sse_buf: Seq::empty(),
                    ..with_round_state(old(self)@, round_state_of(final(self)@))
                });
            }
            (emitted, AttemptOutcome::RetrySilent)
        } else {
            proof {
                assert(final(self)@ =~~= ControllerView {
                    sse_buf: Seq::empty(),
                    ..with_round_state(old(self)@, round_state_of(final(self)@))
                });
            }
            (emitted, AttemptOutcome::Completed)
        }
    }

    /// Applies a successful batch reply: its text is deduplicated and gated
    /// like a streamed delta, its finish reason recorded. A body without
    /// usable text is a hard error.
    pub fn on_batch_body(&mut self, body: &str) -> (r: (String, AttemptOutcome))
        requires
            !old(self)@.done,
        ensures
            ({
                match batch_reply_of(old(self)@.kind, body@) {
                    Option::Some(b) => match b.0 {
                        Option::Some(text) => {
                            let step = apply_delta_spec(round_state_of(old(self)@), text);
                            r.0@ == step.1 && r.1 is Completed && final(self)@
                                == with_round_state(
                                old(self)@,
                                RoundState { finish: b.1, ..step.0 },
                            )
                        },
                        Option::None => r.0@.len() == 0 && (r.1 matches AttemptOutcome::Failed(m)
                            && m@ == crate::provider::missing_content_message(old(self)@.kind))
                            && final(self)@ == (ControllerView { done: true, ..old(self)@ }),
                    },
                    Option::None => r.0@.len() == 0 && (r.1 matches AttemptOutcome::Failed(m) && m@
                        == "decode failed"@) && final(self)@ == (ControllerView {
                        done: true,
                        ..old(self)@
                    }),
                }
            }),
            (batch_reply_of(old(self)@.kind, body@) matches Some(b) && b.0 matches Some(text))
                ==> final(self)@ == reply_applied(
                old(self)@,
                batch_reply_of(old(self)@.kind, body@)->Some_0.0->Some_0,
                batch_reply_of(old(self)@.kind, body@)->Some_0.1,
            ),
    {
        match decode_batch_reply(self.kind, body) {
            Ok(reply) => {
                let emitted = self.apply_delta(reply.content.as_str());
                self.finish = reply.finish_reason;
                proof {
                    let step = apply_delta_spec(
                        round_state_of(old(self)@),
                        batch_reply_of(old(self)@.kind, body@)->Some_0.0->Some_0,
                    );
                    assert(final(self)@ =~~= with_round_state(
                        old(self)@,
                        RoundState {
                            finish: batch_reply_of(old(self)@.kind, body@)->Some_0.1,
                            ..step.0
                        },
                    ));
                }
                (emitted, AttemptOutcome::Completed)
            },
            Err(m) => {
                self.done = true;
                (String::new(), AttemptOutcome::Failed(m))
            },
        }
    }

    /// Judges a completed round from the normalized completion reason alone:
    /// anything but "length-capped" finishes the request; a capped reply
    /// within budget queues the continuation turns; a capped reply on the
    /// last budgeted round appends the truncation notice and finishes.
    pub fn finish_round(&mut self) -> (r: (String, RoundVerdict))
        requires
            !old(self)@.done,
        ensures
            ({
                let capped = old(self)@.finish matches Some(s) && s@ == length_capped_reason(
                    old(self)@.kind,
                );
                if !capped {
                    let fin = gate_finalize_spec(old(self)@.gate);
                    r.1 is Done && r.0@ == fin.1 && final(self)@ == ControllerView {
                        gate: fin.0,
                        done: true,
                        ..old(self)@
                    }
                } else if old(self)@.round + 1 >= old(self)@.round_budget {
                    let g1 = gate_push_spec(old(self)@.gate, truncation_notice());
                    let fin = gate_finalize_spec(g1.0);
                    r.1 is Done && r.0@ == g1.1 + fin.1 && final(self)@ == ControllerView {
                        transcript: old(self)@.transcript + truncation_notice(),
                        gate: fin.0,
                        done: true,
                        ..old(self)@
                    }
                } else {
                    r.1 is NextRound && r.0@.len() == 0 && final(self)@.messages.len() == old(
                        self,
                    )@.messages.len() + 2 && final(self)@.messages.take(
                        old(self)@.messages.len() as int,
                    ) == old(self)@.messages && final(self)@.messages[old(self)@.messages.len() as int]@.role
                        == "assistant"@ && final(self)@.messages[old(self)@.messages.len() as int]@.content
                        == old(self)@.round_unique && final(self)@.messages[old(
                        self,
                    )@.messages.len() as int + 1]@.role == "user"@ && final(self)@.messages[old(
                        self,
                    )@.messages.len() as int + 1]@.content == continue_prompt() && final(self)@
                        == ControllerView {
                        messages: final(self)@.messages,
                        round: old(self)@.round + 1,
                        fallback_ceiling: false,
                        round_unique: Seq::empty(),
                        finish: Option::None,
                        sse_buf: Seq::empty(),
                        ..old(self)@
                    }
                }
            }),
            !capped_reason(old(self)@.kind, old(self)@.finish) ==> finishes_to(
                old(self)@,
                final(self)@,
            ),
            capped_reason(old(self)@.kind, old(self)@.finish) && old(self)@.round + 1 < old(
                self,
            )@.round_budget ==> continues_to(old(self)@, final(self)@),
            capped_reason(old(self)@.kind, old(self)@.finish) && old(self)@.round + 1 >= old(
                self,
            )@.round_budget ==> exhausts_to(old(self)@, final(self)@),
    {
        let capped = is_length_capped(self.kind, &self.finish);
        if !capped {
            let emitted = self.gate.finalize();
            self.done = true;
            proof {
                assert(final(self)@ =~~= ControllerView {
                    gate: gate_finalize_spec(old(self)@.gate).0,
                    done: true,
                    ..old(self)@
                });
            }
            (emitted, RoundVerdict::Done)
        } else if self.round_budget == 0 || self.round >= self.round_budget - 1 {
            append_str(&mut self.transcript, "\n\n[output may be truncated after repeated continuations]");
            let mut emitted = self.gate.push("\n\n[output may be truncated after repeated continuations]");
            let fin = self.gate.finalize();
            append_str(&mut emitted, fin.as_str());
            self.done = true;
            proof {
                assert(final(self)@ =~~= ControllerView {
                    transcript: old(self)@.transcript + truncation_notice(),
                    gate: gate_finalize_spec(gate_push_spec(old(self)@.gate, truncation_notice()).0).0,
                    done: true,
                    ..old(self)@
                });
            }
            (emitted, RoundVerdict::Done)
        } else {
            let assistant = ChatMessage {
                role: String::from_str("assistant"),
                content: self.round_unique.clone(),
            };
            let user = chat_message("user", "Continue from exactly where you stopped. Do not repeat prior text.");
            self.messages.push(assistant);
            self.messages.push(user);
            self.round = self.round + 1;
            self.fallback_ceiling = false;
            self.round_unique = String::new();
            self.finish = None;
            self.sse_buf = String::new();
            proof {
                assert(final(self)@.messages.take(old(self)@.messages.len() as int) =~= old(
                    self,
                )@.messages);
                assert(final(self)@ =~~= ControllerView {
                    messages: final(self)@.messages,
                    round: old(self)@.round + 1,
                    fallback_ceiling: false,
                    round_unique: Seq::empty(),
                    finish: Option::None,
                    sse_buf: Seq::empty(),
                    ..old(self)@
                });
            }
            (String::new(), RoundVerdict::NextRound)
        }
    }

    /// The authoritative transcript gathered so far: every unique character
    /// of every round, gate-unfiltered.
    pub fn transcript(&self) -> (r: String)
        ensures
            r@ == self@.transcript,
    {
        self.transcript.clone()
    }

    /// Whether the request has ended.
    pub fn is_done(&self) -> (r: bool)
        ensures
            r == self@.done,
    {
        self.done
    }

    /// The zero-based index of the round now in progress.
    pub fn round(&self) -> (r: usize)
        ensures
            r == self@.round,
    {
        self.round
    }
}

/// Extending a successful prefix run by one successful line keeps it
/// successful, with the emissions concatenated.
proof fn lemma_process_lines_take_ok(
    kind: ProviderKind,
    st: RoundState,
    lines: Seq<Seq<char>>,
    i: int,
)
    requires
        0 < i <= lines.len(),
    ensures
        ({
            let prefix = process_lines_spec(kind, st, lines.take(i - 1));
            match prefix {
                Result::Ok((st1, em1)) => match process_line_spec(kind, st1, lines[i - 1]) {
                    Result::Ok((st2, em2)) => process_lines_spec(kind, st, lines.take(i))
                        == Result::<(RoundState, Seq<char>), (RoundState, Seq<char>, Seq<char>)>::Ok(
                        (st2, em1 + em2),
                    ),
                    Result::Err(_) => true,
                },
                Result::Err(_) => true,
            }
        }),
    decreases i,
{
    if i == 1 {
        let t1 = lines.take(1);
        assert(t1[0] == lines[0]);
        assert(t1.skip(1) =~= Seq::<Seq<char>>::empty());
        assert(lines.take(0) =~= Seq::<Seq<char>>::empty());
        match process_line_spec(kind, st, lines[0]) {
            Result::Ok((st2, em2)) => {
                assert(em2 + Seq::<char>::empty() =~= em2);
                assert(Seq::<char>::empty() + em2 =~= em2);
                assert(process_lines_spec(kind, st2, t1.skip(1)) == Result::<
                    (RoundState, Seq<char>),
                    (RoundState, Seq<char>, Seq<char>),
                >::Ok((st2, Seq::<char>::empty())));
                assert(process_lines_spec(kind, st, lines.take(1)) == Result::<
                    (RoundState, Seq<char>),
                    (RoundState, Seq<char>, Seq<char>),
                >::Ok((st2, em2)));
                assert(process_lines_spec(kind, st, lines.take(0)) == Result::<
                    (RoundState, Seq<char>),
                    (RoundState, Seq<char>, Seq<char>),
                >::Ok((st, Seq::<char>::empty())));
            },
            Result::Err(_) => {},
        }
    } else {
        let head = lines[0];
        let rest = lines.skip(1);
        assert(lines.take(i - 1)[0] == head);
        assert(lines.take(i)[0] == head);
        assert(lines.take(i - 1).skip(1) =~= rest.take(i - 2));
        assert(lines.take(i).skip(1) =~= rest.take(i - 1));
        assert(rest[i - 2] == lines[i - 1]);
        match process_line_spec(kind, st, head) {
            Result::Ok((st1, em1)) => {
                lemma_process_lines_take_ok(kind, st1, rest, i - 1);
                match process_lines_spec(kind, st1, rest.take(i - 2)) {
                    Result::Ok((sa, ea)) => {
                        // prefix over take(i - 1) is Ok((sa, em1 + ea))
                        match process_line_spec(kind, sa, lines[i - 1]) {
                            Result::Ok((st2, em2)) => {
                                // whole run over take(i) is Ok((st2, em1 + (ea + em2)))
                                assert(process_lines_spec(kind, st1, rest.take(i - 1))
                                    == Result::<(RoundState, Seq<char>), (RoundState, Seq<char>, Seq<char>)>::Ok(
                                    (st2, ea + em2),
                                ));
                                assert(em1 + (ea + em2) =~= (em1 + ea) + em2);
                                assert(process_lines_spec(kind, st, lines.take(i - 1))
                                    == Result::<(RoundState, Seq<char>), (RoundState, Seq<char>, Seq<char>)>::Ok(
                                    (sa, em1 + ea),
                                ));
                                assert(process_lines_spec(kind, st, lines.take(i))
                                    == Result::<(RoundState, Seq<char>), (RoundState, Seq<char>, Seq<char>)>::Ok(
                                    (st2, em1 + (ea + em2)),
                                ));
                            },
                            Result::Err(_) => {},
                        }
                    },
                    Result::Err(_) => {},
                }
            },
            Result::Err(_) => {},
        }
    }
}

/// A successful prefix run followed by one failing line makes the whole run
/// fail with that line's message and the prefix's state and emissions.
proof fn lemma_process_lines_take_err(
    kind: ProviderKind,
    st: RoundState,
    lines: Seq<Seq<char>>,
    i: int,
    st_err: RoundState,
    em_err: Seq<char>,
    msg: Seq<char>,
)
    requires
        0 <= i < lines.len(),
        process_lines_spec(kind, st, lines.take(i)) == Result::<
            (RoundState, Seq<char>),
            (RoundState, Seq<char>, Seq<char>),
        >::Ok((st_err, em_err)),
        process_line_spec(kind, st_err, lines[i]) == Result::<
            (RoundState, Seq<char>),
            Seq<char>,
        >::Err(msg),
    ensures
        process_lines_spec(kind, st, lines) == Result::<
            (RoundState, Seq<char>),
            (RoundState, Seq<char>, Seq<char>),
        >::Err((st_err, em_err, msg)),
    decreases i,
{
    if i == 0 {
        assert(lines.take(0) =~= Seq::<Seq<char>>::empty());
        assert(st_err == st);
        assert(em_err =~= Seq::<char>::empty());
        assert(Seq::<char>::empty() + Seq::<char>::empty() =~= Seq::<char>::empty());
        match process_lines_spec(kind, st, lines) {
            Result::Ok(_) => {
                assert(false);
            },
            Result::Err((sa, ea, ma)) => {
                assert(ea =~= em_err);
            },
        }
    } else {
        let head = lines[0];
        assert(lines.take(i)[0] == head);
        match process_line_spec(kind, st, head) {
            Result::Ok((st1, em1)) => {
                assert(lines.take(i).skip(1) =~= lines.skip(1).take(i - 1));
                let sub = process_lines_spec(kind, st1, lines.skip(1).take(i - 1));
                match sub {
                    Result::Ok((stc, emc)) => {
                        assert(em_err == em1 + emc);
                        assert(lines.skip(1)[i - 1] == lines[i]);
                        lemma_process_lines_take_err(
                            kind,
                            st1,
                            lines.skip(1),
                            i - 1,
                            st_err,
                            emc,
                            msg,
                        );
                        assert(em1 + emc =~= em_err);
                    },
                    Result::Err(_) => {
                        assert(false);
                    },
                }
            },
            Result::Err(_) => {
                assert(false);
            },
        }
    }
}


/// The normalized completion reason means length-capped for this provider.
pub open spec fn capped_reason(kind: ProviderKind, finish: Option<String>) -> bool {
    finish matches Some(s) && s@ == length_capped_reason(kind)
}

/// The controller state once a successful batch reply with text `text` and
/// reason `finish` has been applied: exactly what `on_batch_body` ensures
/// on its success path.
pub open spec fn reply_applied(cv: ControllerView, text: Seq<char>, finish: Option<String>)
    -> ControllerView {
    let step = apply_delta_spec(round_state_of(cv), text);
    with_round_state(cv, RoundState { finish, ..step.0 })
}

/// `finish_round`'s continuation outcome, as a relation: everything but the
/// message list is pinned by construction; the two appended turns carry the
/// round's unique text and the fixed continuation instruction.
pub open spec fn continues_to(cv: ControllerView, cv2: ControllerView) -> bool {
    &&& capped_reason(cv.kind, cv.finish)
    &&& cv.round + 1 < cv.round_budget
    &&& cv2.messages.len() == cv.messages.len() + 2
    &&& cv2.messages.take(cv.messages.len() as int) == cv.messages
    &&& cv2.messages[cv.messages.len() as int]@.role == "assistant"@
    &&& cv2.messages[cv.messages.len() as int]@.content == cv.round_unique
    &&& cv2.messages[cv.messages.len() as int + 1]@.role == "user"@
    &&& cv2.messages[cv.messages.len() as int + 1]@.content == continue_prompt()
    &&& cv2 == (ControllerView {
        messages: cv2.messages,
        round: cv.round + 1,
        fallback_ceiling: false,
        round_unique: Seq::empty(),
        finish: Option::None,
        sse_buf: Seq::empty(),
        ..cv
    })
}

/// `finish_round`'s completion outcome: the reason is not length-capped, the
/// gate is finalized, the request is over.
pub open spec fn finishes_to(cv: ControllerView, cv2: ControllerView) -> bool {
    &&& !capped_reason(cv.kind, cv.finish)
    &&& cv2 == (ControllerView {
        gate: gate_finalize_spec(cv.gate).0,
        done: true,
        ..cv
    })
}

/// `finish_round`'s exhaustion outcome: still capped on the last budgeted
/// round, the fixed truncation notice is appended and the request is over.
pub open spec fn exhausts_to(cv: ControllerView, cv2: ControllerView) -> bool {
    &&& capped_reason(cv.kind, cv.finish)
    &&& cv.round + 1 >= cv.round_budget
    &&& cv2 == (ControllerView {
        transcript: cv.transcript + truncation_notice(),
        gate: gate_finalize_spec(gate_push_spec(cv.gate, truncation_notice()).0).0,
        done: true,
        ..cv
    })
}

/// One whole round over batch transport: the reply is applied and, still
/// length-capped within budget, the controller advances to the next round.
pub open spec fn round_advances(
    cv: ControllerView,
    text: Seq<char>,
    finish: Option<String>,
    cv2: ControllerView,
) -> bool {
    continues_to(reply_applied(cv, text, finish), cv2)
}

/// One whole round over batch transport whose reply completes the request.
pub open spec fn round_finishes(
    cv: ControllerView,
    text: Seq<char>,
    finish: Option<String>,
    cv2: ControllerView,
) -> bool {
    finishes_to(reply_applied(cv, text, finish), cv2)
}

/// One whole round over batch transport whose capped reply exhausts the
/// budget.
pub open spec fn round_exhausts(
    cv: ControllerView,
    text: Seq<char>,
    finish: Option<String>,
    cv2: ControllerView,
) -> bool {
    exhausts_to(reply_applied(cv, text, finish), cv2)
}

/// The transcript a run of replies leaves behind: each reply's text joins
/// deduplicated against everything before it.
pub open spec fn run_transcript(t: Seq<char>, replies: Seq<(Seq<char>, Option<String>)>) -> Seq<
    char,
>
    decreases replies.len(),
{
    if replies.len() == 0 {
        t
    } else {
        run_transcript(t + dedup_appended(t, replies[0].0), replies.skip(1))
    }
}

/// A run that is length-capped on every round but the last performs exactly
/// one round per reply, then stops: no further round follows a completing
/// reply. The final transcript is the deduplicated concatenation of every
/// round's text onto the starting transcript, and the round counter has
/// advanced once per continuation. The relations chaining the views are
/// exactly the `ensures` of `on_batch_body` and `finish_round`.
pub proof fn lemma_capped_rounds_then_complete(
    views: Seq<ControllerView>,
    replies: Seq<(Seq<char>, Option<String>)>,
)
    requires
        views.len() == replies.len() + 1,
        replies.len() >= 1,
        forall|k: int| 0 <= k < replies.len() - 1 ==> round_advances(
            views[k],
            (#[trigger] replies[k]).0,
            replies[k].1,
            views[k + 1],
        ),
        round_finishes(
            views[replies.len() - 1],
            replies[replies.len() - 1].0,
            replies[replies.len() - 1].1,
            views[replies.len() as int],
        ),
    ensures
        views[views.len() - 1].done,
        views[views.len() - 1].round == views[0].round + replies.len() - 1,
        views[views.len() - 1].transcript == run_transcript(views[0].transcript, replies),
    decreases replies.len(),
{
    let first = replies[0];
    let mid = reply_applied(views[0], first.0, first.1);
    let t1 = views[0].transcript + dedup_appended(views[0].transcript, first.0);
    assert(mid.transcript == t1);
    if replies.len() == 1 {
        assert(replies.skip(1) =~= Seq::<(Seq<char>, Option<String>)>::empty());
        assert(run_transcript(t1, replies.skip(1)) == t1);
        assert(run_transcript(views[0].transcript, replies) == mid.transcript);
    } else {
        assert(round_advances(views[0], first.0, first.1, views[1]));
        lemma_capped_rounds_then_complete(views.skip(1), replies.skip(1));
        assert(forall|k: int| 0 <= k < replies.skip(1).len() - 1 ==> views.skip(1)[k]
            == views[k + 1] && views.skip(1)[k + 1] == views[k + 2] && replies.skip(1)[k]
            == replies[k + 1]);
        assert(views.skip(1)[replies.len() - 2] == views[replies.len() - 1]);
        assert(views.skip(1)[replies.len() - 1] == views[replies.len() as int]);
        assert(replies.skip(1)[replies.len() - 2] == replies[replies.len() - 1]);
        assert(views[1].transcript == mid.transcript);
        assert(run_transcript(views[0].transcript, replies) == run_transcript(
            views[1].transcript,
            replies.skip(1),
        ));
    }
}

/// A run that is length-capped on every reply and runs out of budget stops
/// with the fixed truncation notice appended: the final transcript is the
/// deduplicated concatenation of every round's text followed by the notice,
/// and exhaustion is no error — the request is simply over.
pub proof fn lemma_capped_rounds_exhaust_budget(
    views: Seq<ControllerView>,
    replies: Seq<(Seq<char>, Option<String>)>,
)
    requires
        views.len() == replies.len() + 1,
        replies.len() >= 1,
        forall|k: int| 0 <= k < replies.len() - 1 ==> round_advances(
            views[k],
            (#[trigger] replies[k]).0,
            replies[k].1,
            views[k + 1],
        ),
        round_exhausts(
            views[replies.len() - 1],
            replies[replies.len() - 1].0,
            replies[replies.len() - 1].1,
            views[replies.len() as int],
        ),
    ensures
        views[views.len() - 1].done,
        views[views.len() - 1].round == views[0].round + replies.len() - 1,
        views[views.len() - 1].transcript == run_transcript(views[0].transcript, replies)
            + truncation_notice(),
    decreases replies.len(),
{
    let first = replies[0];
    let mid = reply_applied(views[0], first.0, first.1);
    let t1 = views[0].transcript + dedup_appended(views[0].transcript, first.0);
    assert(mid.transcript == t1);
    if replies.len() == 1 {
        assert(replies.skip(1) =~= Seq::<(Seq<char>, Option<String>)>::empty());
        assert(run_transcript(t1, replies.skip(1)) == t1);
        assert(run_transcript(views[0].transcript, replies) == mid.transcript);
    } else {
        assert(round_advances(views[0], first.0, first.1, views[1]));
        lemma_capped_rounds_exhaust_budget(views.skip(1), replies.skip(1));
        assert(forall|k: int| 0 <= k < replies.skip(1).len() - 1 ==> views.skip(1)[k]
            == views[k + 1] && views.skip(1)[k + 1] == views[k + 2] && replies.skip(1)[k]
            == replies[k + 1]);
        assert(views.skip(1)[replies.len() - 2] == views[replies.len() - 1]);
        assert(views.skip(1)[replies.len() - 1] == views[replies.len() as int]);
        assert(replies.skip(1)[replies.len() - 2] == replies[replies.len() - 1]);
        assert(views[1].transcript == mid.transcript);
        assert(run_transcript(views[0].transcript, replies) == run_transcript(
            views[1].transcript,
            replies.skip(1),
        ));
    }
}

/// With as many capped rounds as the whole budget, the run performs exactly
/// the budgeted number of rounds before the notice: the budget bounds the
/// rounds.
pub proof fn lemma_budget_bounds_rounds(
    views: Seq<ControllerView>,
    replies: Seq<(Seq<char>, Option<String>)>,
)
    requires
        views.len() == replies.len() + 1,
        replies.len() >= 1,
        views[0].round == 0,
        views[0].round_budget == replies.len(),
        forall|k: int| 0 <= k < replies.len() - 1 ==> round_advances(
            views[k],
            (#[trigger] replies[k]).0,
            replies[k].1,
            views[k + 1],
        ),
        round_exhausts(
            views[replies.len() - 1],
            replies[replies.len() - 1].0,
            replies[replies.len() - 1].1,
            views[replies.len() as int],
        ),
    ensures
        views[views.len() - 1].done,
        views[views.len() - 1].round == views[0].round_budget - 1,
{
    lemma_capped_rounds_exhaust_budget(views, replies);
}

/// Once a round has retried for the missing output-token ceiling, the same
/// recovery cannot fire again that round: with the ceiling already set, no
/// body classifies as demanding it. Together with `on_http_failure`'s
/// ensures — the `MissingMaxTokens` outcome sets the ceiling and
/// `next_request` then carries it — each round retries for the ceiling at
/// most once, and a successful retry surfaces no error.
pub proof fn lemma_ceiling_retry_at_most_once(
    lowered: Seq<char>,
    client_error: bool,
    stream_fallback_available: bool,
)
    ensures
        classify_spec(lowered, client_error, false, stream_fallback_available)
            != HttpErrorClass::MissingMaxTokens,
{
}

}

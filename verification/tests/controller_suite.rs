use novelcore::chat::{chat_message, ChatMessage};
use novelcore::controller::{
    AttemptOutcome, Controller, RoundVerdict, MAX_CONTINUATIONS,
};
use novelcore::provider::{
    anthropic_endpoint, classify_http_error, decode_batch_reply, decode_stream_event,
    is_length_capped, openai_endpoint, resolve_credential, HttpErrorClass, ProviderKind,
};
use novelcore::registry::StreamTaskRegistry;

fn conversation() -> Vec<ChatMessage> {
    vec![chat_message("user", "write a scene")]
}

fn openai_batch_body(content: &str, finish: &str) -> String {
    format!(
        "{{\"choices\":[{{\"message\":{{\"content\":\"{content}\"}},\"finish_reason\":\"{finish}\"}}]}}"
    )
}

#[test]
fn six_rounds_until_the_provider_completes() {
    // length-capped for five rounds, complete on the sixth: exactly six
    // rounds run and the transcript is the concatenation of the unique text
    let mut ctrl = Controller::new_default(ProviderKind::OpenAi, conversation());
    let pieces = ["R1 ", "R2 ", "R3 ", "R4 ", "R5 ", "R6"];
    let mut rounds = 0;
    for (i, piece) in pieces.iter().enumerate() {
        let _req = ctrl.next_request();
        rounds += 1;
        let finish = if i < 5 { "length" } else { "stop" };
        let (_emitted, outcome) = ctrl.on_batch_body(&openai_batch_body(piece, finish));
        assert!(matches!(outcome, AttemptOutcome::Completed));
        let (_flush, verdict) = ctrl.finish_round();
        if i < 5 {
            assert!(matches!(verdict, RoundVerdict::NextRound));
        } else {
            assert!(matches!(verdict, RoundVerdict::Done));
        }
    }
    assert_eq!(rounds, 6);
    assert!(ctrl.is_done());
    assert_eq!(ctrl.transcript(), "R1 R2 R3 R4 R5 R6");
}

#[test]
fn an_exhausted_budget_appends_the_truncation_notice() {
    // budget of three rounds, always length-capped
    let mut ctrl = Controller::new(ProviderKind::OpenAi, conversation(), 3);
    for i in 0..3 {
        let _req = ctrl.next_request();
        let body = openai_batch_body(&format!("part{i} "), "length");
        let (_emitted, outcome) = ctrl.on_batch_body(&body);
        assert!(matches!(outcome, AttemptOutcome::Completed));
        let (_flush, verdict) = ctrl.finish_round();
        if i < 2 {
            assert!(matches!(verdict, RoundVerdict::NextRound));
        } else {
            assert!(matches!(verdict, RoundVerdict::Done));
        }
    }
    assert!(ctrl.is_done());
    let transcript = ctrl.transcript();
    assert!(transcript
        .ends_with("\n\n[output may be truncated after repeated continuations]"));
    assert!(transcript.starts_with("part0 part1 part2"));
}

#[test]
fn a_missing_ceiling_is_retried_once_with_the_ceiling_set() {
    // HTTP 400 naming the output-token field on the first attempt: the same
    // round is retried with the ceiling, and the caller sees no error
    let mut ctrl = Controller::new_default(ProviderKind::OpenAi, conversation());
    let req = ctrl.next_request();
    assert!(!req.include_ceiling);
    let cls = ctrl.on_http_failure(
        true,
        "{\"error\":{\"message\":\"you must provide a max_tokens value\"}}",
    );
    assert!(matches!(cls, HttpErrorClass::MissingMaxTokens));
    assert!(!ctrl.is_done());
    let retry = ctrl.next_request();
    assert!(retry.include_ceiling);
    let (_emitted, outcome) = ctrl.on_batch_body(&openai_batch_body("the whole reply", "stop"));
    assert!(matches!(outcome, AttemptOutcome::Completed));
    let (_flush, verdict) = ctrl.finish_round();
    assert!(matches!(verdict, RoundVerdict::Done));
    assert_eq!(ctrl.transcript(), "the whole reply");
}

#[test]
fn rejected_streaming_falls_back_to_batch() {
    let mut ctrl = Controller::new_default(ProviderKind::OpenAi, conversation());
    assert!(ctrl.next_request().stream);
    let cls = ctrl.on_http_failure(true, "{\"error\":\"stream is not supported here\"}");
    assert!(matches!(cls, HttpErrorClass::StreamUnsupported));
    assert!(!ctrl.next_request().stream);
}

#[test]
fn anything_else_is_fatal() {
    let mut ctrl = Controller::new_default(ProviderKind::OpenAi, conversation());
    let cls = ctrl.on_http_failure(false, "{\"error\":\"upstream exploded\"}");
    assert!(matches!(cls, HttpErrorClass::Fatal));
    assert!(ctrl.is_done());
}

#[test]
fn streamed_deltas_are_deduplicated_and_gated() {
    let mut ctrl = Controller::new_default(ProviderKind::OpenAi, conversation());
    let _req = ctrl.next_request();
    let chunk = "data: {\"choices\":[{\"delta\":{\"content\":\"Hello, wor\"}}]}\ndata: {\"choices\":[{\"delta\":{\"content\":\"world!\"}}]}\ndata: {\"choices\":[{\"finish_reason\":\"stop\"}]}\ndata: [DONE]\n";
    let (emitted, err) = ctrl.on_stream_chunk(chunk);
    assert!(err.is_none());
    assert_eq!(emitted, "Hello, world!");
    let (_tail, outcome) = ctrl.on_stream_end();
    assert!(matches!(outcome, AttemptOutcome::Completed));
    let (_flush, verdict) = ctrl.finish_round();
    assert!(matches!(verdict, RoundVerdict::Done));
    assert_eq!(ctrl.transcript(), "Hello, world!");
}

#[test]
fn a_malformed_stream_payload_is_a_hard_error() {
    let mut ctrl = Controller::new_default(ProviderKind::OpenAi, conversation());
    let _req = ctrl.next_request();
    let (_emitted, err) = ctrl.on_stream_chunk("data: {not json}\n");
    let msg = err.expect("a malformed payload must fail");
    assert_eq!(msg, "stream parse failed; data={not json}");
    assert!(ctrl.is_done());
}

#[test]
fn a_silent_stream_falls_back_to_batch() {
    let mut ctrl = Controller::new_default(ProviderKind::OpenAi, conversation());
    assert!(ctrl.next_request().stream);
    let (_emitted, err) = ctrl.on_stream_chunk(": keep-alive comment\n\n");
    assert!(err.is_none());
    let (_tail, outcome) = ctrl.on_stream_end();
    assert!(matches!(outcome, AttemptOutcome::RetrySilent));
    assert!(!ctrl.next_request().stream);
}

#[test]
fn the_unterminated_buffer_tail_is_one_final_record() {
    let mut ctrl = Controller::new_default(ProviderKind::OpenAi, conversation());
    let _req = ctrl.next_request();
    let (emitted, err) =
        ctrl.on_stream_chunk("data: {\"choices\":[{\"delta\":{\"content\":\"partial\"}}]}");
    assert!(err.is_none());
    assert_eq!(emitted, "");
    let (tail, outcome) = ctrl.on_stream_end();
    assert!(matches!(outcome, AttemptOutcome::Completed));
    assert_eq!(tail, "partial");
    assert_eq!(ctrl.transcript(), "partial");
}

#[test]
fn continuation_rounds_carry_the_continue_instruction() {
    let mut ctrl = Controller::new_default(ProviderKind::OpenAi, conversation());
    let _req = ctrl.next_request();
    let (_e, _o) = ctrl.on_batch_body(&openai_batch_body("begin", "length"));
    let (_f, verdict) = ctrl.finish_round();
    assert!(matches!(verdict, RoundVerdict::NextRound));
    let req2 = ctrl.next_request();
    assert_eq!(req2.messages.len(), 3);
    assert_eq!(req2.messages[1].role, "assistant");
    assert_eq!(req2.messages[1].content, "begin");
    assert_eq!(req2.messages[2].role, "user");
    assert_eq!(
        req2.messages[2].content,
        "Continue from exactly where you stopped. Do not repeat prior text."
    );
    assert_eq!(ctrl.round(), 1);
}

#[test]
fn anthropic_events_and_reasons_are_normalized() {
    let ev = decode_stream_event(
        ProviderKind::Anthropic,
        "{\"type\":\"content_block_delta\",\"delta\":{\"text\":\"hi\"}}",
    )
    .unwrap();
    assert_eq!(ev.content.as_deref(), Some("hi"));
    assert!(ev.finish_reason.is_none());
    let ev2 = decode_stream_event(
        ProviderKind::Anthropic,
        "{\"type\":\"message_delta\",\"delta\":{\"stop_reason\":\"max_tokens\"}}",
    )
    .unwrap();
    assert_eq!(ev2.finish_reason.as_deref(), Some("max_tokens"));
    assert!(is_length_capped(
        ProviderKind::Anthropic,
        &Some("max_tokens".to_string())
    ));
    assert!(!is_length_capped(
        ProviderKind::Anthropic,
        &Some("length".to_string())
    ));
    assert!(is_length_capped(ProviderKind::OpenAi, &Some("length".to_string())));
}

#[test]
fn anthropic_batch_parts_are_joined() {
    let reply = decode_batch_reply(
        ProviderKind::Anthropic,
        "{\"content\":[{\"type\":\"text\",\"text\":\"Hel\"},{\"type\":\"text\",\"text\":\"lo\"}],\"stop_reason\":\"end_turn\"}",
    )
    .unwrap();
    assert_eq!(reply.content, "Hello");
    assert_eq!(reply.finish_reason.as_deref(), Some("end_turn"));
    let err = decode_batch_reply(ProviderKind::Anthropic, "{\"content\":[]}").unwrap_err();
    assert_eq!(err, "missing content[].text");
}

#[test]
fn openai_batch_without_content_is_missing() {
    let err = decode_batch_reply(ProviderKind::OpenAi, "{\"choices\":[{}]}").unwrap_err();
    assert_eq!(err, "missing choices[0].message.content");
    let err2 = decode_batch_reply(ProviderKind::OpenAi, "garbage").unwrap_err();
    assert_eq!(err2, "decode failed");
}

#[test]
fn classification_lowercases_the_body() {
    // fails if the lowercase wrapper handed its argument back unchanged
    let cls = classify_http_error("MAX_TOKENS IS REQUIRED", true, true, true);
    assert!(matches!(cls, HttpErrorClass::MissingMaxTokens));
    let cls2 = classify_http_error("STREAM MODE UNSUPPORTED", true, false, true);
    assert!(matches!(cls2, HttpErrorClass::StreamUnsupported));
    let cls3 = classify_http_error("max_tokens", false, true, true);
    assert!(matches!(cls3, HttpErrorClass::Fatal));
}

#[test]
fn endpoints_follow_each_schema() {
    assert_eq!(
        openai_endpoint("https://api.example.com/v1/"),
        "https://api.example.com/v1/chat/completions"
    );
    assert_eq!(
        anthropic_endpoint(""),
        "https://api.anthropic.com/v1/messages"
    );
    assert_eq!(
        anthropic_endpoint("https://proxy.example.com/v1/messages/"),
        "https://proxy.example.com/v1/messages"
    );
    assert_eq!(
        anthropic_endpoint("https://proxy.example.com/v1"),
        "https://proxy.example.com/v1/messages"
    );
}

#[test]
fn credentials_prefer_the_secret_store_and_reject_blanks() {
    let key = resolve_credential(Some("sk-stored".to_string()), " sk-config ", "p1").unwrap();
    assert_eq!(key, "sk-stored");
    let key2 = resolve_credential(None, "  sk-config  ", "p1").unwrap();
    assert_eq!(key2, "sk-config");
    let err = resolve_credential(None, "   ", "p1").unwrap_err();
    assert_eq!(err, "api key not found for provider=p1");
    let err2 = resolve_credential(Some("  ".to_string()), "ignored", "p2").unwrap_err();
    assert_eq!(err2, "api key not found for provider=p2");
}

#[test]
fn budget_counts_rounds_even_for_one() {
    let mut ctrl = Controller::new(ProviderKind::OpenAi, conversation(), 1);
    let _req = ctrl.next_request();
    let (_e, _o) = ctrl.on_batch_body(&openai_batch_body("only", "length"));
    let (_f, verdict) = ctrl.finish_round();
    assert!(matches!(verdict, RoundVerdict::Done));
    assert!(ctrl
        .transcript()
        .ends_with("[output may be truncated after repeated continuations]"));
}

#[test]
fn registering_twice_aborts_the_first_task() {
    let mut reg = StreamTaskRegistry::new();
    assert_eq!(reg.register("story-1", 11), None);
    assert_eq!(reg.len(), 1);
    // a second task for the same identity hands back the first handle
    assert_eq!(reg.register("story-1", 22), Some(11));
    assert_eq!(reg.len(), 1);
    assert_eq!(reg.cancel("story-1"), Some(22));
    assert_eq!(reg.len(), 0);
}

#[test]
fn cancelling_an_absent_identity_is_a_no_op() {
    let mut reg = StreamTaskRegistry::new();
    assert_eq!(reg.register("story-1", 7), None);
    assert_eq!(reg.cancel("story-2"), None);
    assert_eq!(reg.len(), 1);
    assert_eq!(reg.complete("story-1"), Some(7));
    assert_eq!(reg.complete("story-1"), None);
}

#[test]
fn distinct_identities_run_concurrently() {
    let mut reg = StreamTaskRegistry::new();
    assert_eq!(reg.register("a", 1), None);
    assert_eq!(reg.register("b", 2), None);
    assert_eq!(reg.len(), 2);
    assert_eq!(reg.cancel("a"), Some(1));
    assert_eq!(reg.cancel("b"), Some(2));
}

#[test]
fn default_budget_is_one_round_plus_the_continuations() {
    assert_eq!(MAX_CONTINUATIONS, 64);
}

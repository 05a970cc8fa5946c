//! Provider adapter: maps the abstract continuation round onto one concrete
//! provider schema and back.
//!
//! The two supported schemas differ only in wire details: endpoint path,
//! credential placement, field names, and which finish reason means
//! "length-capped". Payload parsing goes through one trusted call into
//! `serde_json` per schema; everything decided about the parsed fields is
//! verified code.
use vstd::prelude::*;
use crate::text::{contains_seq, ends_with_spec, str_contains, str_ends_with, str_eq, str_trim,
    trim_spec, chars_of, string_of, append_str};

verus! {

/// Which provider schema a request follows.
#[derive(Clone, Copy, PartialEq, Eq, Structural, Debug)]
pub enum ProviderKind {
    OpenAi,
    OpenAiCompatible,
    Anthropic,
}

/// The fields a provider payload may carry, read schema-agnostically from
/// one JSON event or response body.
pub struct OpenAiPayload {
    /// `choices[0].delta.content`: the streamed text delta.
    pub delta_content: Option<String>,
    /// `choices[0].message.content`: the batch reply text.
    pub message_content: Option<String>,
    /// `choices[0].finish_reason`.
    pub finish_reason: Option<String>,
}

/// The fields of one event or response body in the Anthropic schema.
pub struct AnthropicPayload {
    /// `type`: the event kind of a streamed line.
    pub event_type: Option<String>,
    /// `delta.text`: the streamed text delta.
    pub delta_text: Option<String>,
    /// `delta.stop_reason`: the streamed stop reason.
    pub delta_stop_reason: Option<String>,
    /// `content[*].text`: the text of each part of a batch reply.
    pub content_parts: Option<Vec<Option<String>>>,
    /// `stop_reason` of a batch reply.
    pub stop_reason: Option<String>,
}

pub uninterp spec fn openai_payload_of(s: Seq<char>) -> Option<OpenAiPayload>;

/// Relies on `serde_json::from_str` and `serde_json::Value` field access:
/// parses one payload and hands out the schema's fields; `None` for a body
/// that is not well-formed JSON.
#[verifier::external_body]
pub(crate) fn decode_openai_payload(data: &str) -> (r: Option<OpenAiPayload>)
    ensures
        r == openai_payload_of(data@),
{
    let v: serde_json::Value = serde_json::from_str(data).ok()?;
    Some(OpenAiPayload {
        delta_content: v["choices"][0]["delta"]["content"].as_str().map(|s| s.to_string()),
        message_content: v["choices"][0]["message"]["content"].as_str().map(|s| s.to_string()),
        finish_reason: v["choices"][0]["finish_reason"].as_str().map(|s| s.to_string()),
    })
}

pub uninterp spec fn anthropic_payload_of(s: Seq<char>) -> Option<AnthropicPayload>;

/// Relies on `serde_json::from_str` and `serde_json::Value` field access:
/// parses one payload and hands out the schema's fields; `None` for a body
/// that is not well-formed JSON.
#[verifier::external_body]
pub(crate) fn decode_anthropic_payload(data: &str) -> (r: Option<AnthropicPayload>)
    ensures
        r == anthropic_payload_of(data@),
{
    let v: serde_json::Value = serde_json::from_str(data).ok()?;
    Some(AnthropicPayload {
        event_type: v["type"].as_str().map(|s| s.to_string()),
        delta_text: v["delta"]["text"].as_str().map(|s| s.to_string()),
        delta_stop_reason: v["delta"]["stop_reason"].as_str().map(|s| s.to_string()),
        content_parts: v["content"]
            .as_array()
            .map(|a| a.iter().map(|p| p["text"].as_str().map(|s| s.to_string())).collect()),
        stop_reason: v["stop_reason"].as_str().map(|s| s.to_string()),
    })
}

pub uninterp spec fn lower_of(s: Seq<char>) -> Seq<char>;

/// Relies on `str::to_lowercase`: the result depends on the characters
/// alone, and an empty string stays empty.
#[verifier::external_body]
pub(crate) fn lowercase(s: &str) -> (r: String)
    ensures
        r@ == lower_of(s@),
        s@.len() == 0 ==> r@.len() == 0,
{
    s.to_lowercase()
}

/// A streamed event normalized across schemas: a text delta and/or a
/// completion reason.
#[derive(Debug)]
pub struct StreamEvent {
    pub content: Option<String>,
    pub finish_reason: Option<String>,
}

/// The normalized event carried by an OpenAI-schema payload.
pub open spec fn openai_event_of(p: OpenAiPayload) -> (Option<String>, Option<String>) {
    (p.delta_content, p.finish_reason)
}

/// The normalized event carried by an Anthropic-schema payload: text only
/// from a `content_block_delta`, a reason only from a `message_delta`.
pub open spec fn anthropic_event_of(p: AnthropicPayload) -> (Option<String>, Option<String>) {
    let content = if p.event_type matches Some(t) && t@ == "content_block_delta"@ {
        p.delta_text
    } else {
        Option::None
    };
    let finish = if p.event_type matches Some(t) && t@ == "message_delta"@ {
        p.delta_stop_reason
    } else {
        Option::None
    };
    (content, finish)
}

/// The normalized event of one well-formed streamed payload, or `None` when
/// the payload is not well-formed JSON (a hard decode error upstream).
pub open spec fn stream_event_of(kind: ProviderKind, s: Seq<char>) -> Option<(
    Option<String>,
    Option<String>,
)> {
    match kind {
        ProviderKind::Anthropic => match anthropic_payload_of(s) {
            Option::Some(p) => Option::Some(anthropic_event_of(p)),
            Option::None => Option::None,
        },
        _ => match openai_payload_of(s) {
            Option::Some(p) => Option::Some(openai_event_of(p)),
            Option::None => Option::None,
        },
    }
}

/// Decodes one streamed payload into the normalized event; `Err` carries the
/// decode-failure message for a payload that is not well-formed JSON.
pub fn decode_stream_event(kind: ProviderKind, payload: &str) -> (r: Result<StreamEvent, String>)
    ensures
        match r {
            Ok(ev) => stream_event_of(kind, payload@) == Option::Some(
                (ev.content, ev.finish_reason),
            ),
            Err(m) => stream_event_of(kind, payload@) is None && m@ == "stream parse failed; data="@
                + payload@,
        },
{
    match kind {
        ProviderKind::Anthropic => {
            match decode_anthropic_payload(payload) {
                Some(p) => {
                    let is_delta = match &p.event_type {
                        Some(t) => str_eq(t.as_str(), "content_block_delta"),
                        None => false,
                    };
                    let is_message = match &p.event_type {
                        Some(t) => str_eq(t.as_str(), "message_delta"),
                        None => false,
                    };
                    let content = if is_delta {
                        p.delta_text
                    } else {
                        None
                    };
                    let finish = if is_message {
                        p.delta_stop_reason
                    } else {
                        None
                    };
                    Ok(StreamEvent { content, finish_reason: finish })
                },
                None => Err(decode_failure_message(payload)),
            }
        },
        _ => {
            match decode_openai_payload(payload) {
                Some(p) => Ok(StreamEvent { content: p.delta_content, finish_reason: p.finish_reason }),
                None => Err(decode_failure_message(payload)),
            }
        },
    }
}

/// The message reported for a payload that is not well-formed JSON.
fn decode_failure_message(payload: &str) -> (r: String)
    ensures
        r@ == "stream parse failed; data="@ + payload@,
{
    let mut m = String::new();
    append_str(&mut m, "stream parse failed; data=");
    append_str(&mut m, payload);
    proof {
        assert(m@ =~= "stream parse failed; data="@ + payload@);
    }
    m
}

/// The provider-specific finish reason that means "length-capped": the
/// response was cut by the output-token ceiling and a continuation round is
/// owed.
pub open spec fn length_capped_reason(kind: ProviderKind) -> Seq<char> {
    match kind {
        ProviderKind::Anthropic => "max_tokens"@,
        _ => "length"@,
    }
}

/// Whether a normalized completion reason means "length-capped" for this
/// provider.
pub fn is_length_capped(kind: ProviderKind, reason: &Option<String>) -> (r: bool)
    ensures
        r == (reason matches Some(s) && s@ == length_capped_reason(kind)),
{
    match reason {
        Some(s) => match kind {
            ProviderKind::Anthropic => str_eq(s.as_str(), "max_tokens"),
            _ => str_eq(s.as_str(), "length"),
        },
        None => false,
    }
}

/// A batch (non-streamed) reply normalized across schemas.
#[derive(Debug)]
pub struct BatchReply {
    pub content: String,
    pub finish_reason: Option<String>,
}

/// The concatenation of the texts of the parts that carry one.
pub open spec fn joined_parts(parts: Seq<Option<String>>) -> Seq<char>
    decreases parts.len(),
{
    if parts.len() == 0 {
        Seq::empty()
    } else {
        (match parts[0] {
            Option::Some(s) => s@,
            Option::None => Seq::empty(),
        }) + joined_parts(parts.skip(1))
    }
}

/// Appending one part extends the join on the right.
proof fn lemma_joined_parts_snoc(parts: Seq<Option<String>>, p: Option<String>)
    ensures
        joined_parts(parts.push(p)) == joined_parts(parts) + (match p {
            Option::Some(s) => s@,
            Option::None => Seq::<char>::empty(),
        }),
    decreases parts.len(),
{
    let whole = parts.push(p);
    if parts.len() == 0 {
        assert(whole.skip(1) =~= Seq::<Option<String>>::empty());
        assert(joined_parts(whole.skip(1)) =~= Seq::<char>::empty());
        assert(joined_parts(parts) =~= Seq::<char>::empty());
        assert(joined_parts(whole) =~= joined_parts(parts) + (match p {
            Option::Some(s) => s@,
            Option::None => Seq::<char>::empty(),
        }));
    } else {
        assert(whole.skip(1) =~= parts.skip(1).push(p));
        lemma_joined_parts_snoc(parts.skip(1), p);
        assert(joined_parts(whole) =~= joined_parts(parts) + (match p {
            Option::Some(s) => s@,
            Option::None => Seq::<char>::empty(),
        }));
    }
}

/// Joins the texts of the given parts.
fn join_parts(parts: &Vec<Option<String>>) -> (r: String)
    ensures
        r@ == joined_parts(parts@),
{
    let mut out = String::new();
    let mut i: usize = 0;
    proof {
        assert(parts@.take(0) =~= Seq::<Option<String>>::empty());
    }
    while i < parts.len()
        invariant
            i <= parts@.len(),
            out@ == joined_parts(parts@.take(i as int)),
        decreases parts@.len() - i,
    {
        match &parts[i] {
            Some(s) => {
                append_str(&mut out, s.as_str());
            },
            None => {},
        }
        proof {
            lemma_joined_parts_snoc(parts@.take(i as int), parts@[i as int]);
            assert(parts@.take(i + 1) =~= parts@.take(i as int).push(parts@[i as int]));
        }
        i = i + 1;
    }
    proof {
        assert(parts@.take(parts@.len() as int) =~= parts@);
    }
    out
}

/// What a well-formed batch body of this schema normalizes to: the reply
/// text (`None` when the expected content is missing or empty, a fatal
/// error) and the finish reason.
pub open spec fn batch_reply_of(kind: ProviderKind, s: Seq<char>) -> Option<(
    Option<Seq<char>>,
    Option<String>,
)> {
    match kind {
        ProviderKind::Anthropic => match anthropic_payload_of(s) {
            Option::Some(p) => {
                let text = match p.content_parts {
                    Option::Some(parts) => if joined_parts(parts@).len() > 0 {
                        Option::Some(joined_parts(parts@))
                    } else {
                        Option::None
                    },
                    Option::None => Option::None,
                };
                Option::Some((text, p.stop_reason))
            },
            Option::None => Option::None,
        },
        _ => match openai_payload_of(s) {
            Option::Some(p) => Option::Some(
                (
                    match p.message_content {
                        Option::Some(c) => Option::Some(c@),
                        Option::None => Option::None,
                    },
                    p.finish_reason,
                ),
            ),
            Option::None => Option::None,
        },
    }
}

/// The error message for a batch reply without usable text.
pub open spec fn missing_content_message(kind: ProviderKind) -> Seq<char> {
    match kind {
        ProviderKind::Anthropic => "missing content[].text"@,
        _ => "missing choices[0].message.content"@,
    }
}

/// Decodes a successful batch body into the normalized reply. `Err` carries
/// the message for a body that is not well-formed JSON or holds no text.
pub fn decode_batch_reply(kind: ProviderKind, body: &str) -> (r: Result<BatchReply, String>)
    ensures
        match r {
            Ok(reply) => batch_reply_of(kind, body@) matches Some(b) && b.0 == Option::Some(
                reply.content@,
            ) && b.1 == reply.finish_reason,
            Err(m) => {
                ||| (batch_reply_of(kind, body@) is None && m@ == "decode failed"@)
                ||| (batch_reply_of(kind, body@) matches Some(b) && b.0 is None && m@
                    == missing_content_message(kind))
            },
        },
{
    match kind {
        ProviderKind::Anthropic => {
            match decode_anthropic_payload(body) {
                Some(p) => {
                    match p.content_parts {
                        Some(parts) => {
                            let text = join_parts(&parts);
                            if text.as_str().is_empty() {
                                Err(String::from_str("missing content[].text"))
                            } else {
                                Ok(BatchReply { content: text, finish_reason: p.stop_reason })
                            }
                        },
                        None => Err(String::from_str("missing content[].text")),
                    }
                },
                None => Err(String::from_str("decode failed")),
            }
        },
        _ => {
            match decode_openai_payload(body) {
                Some(p) => {
                    match p.message_content {
                        Some(c) => Ok(BatchReply { content: c, finish_reason: p.finish_reason }),
                        None => Err(String::from_str("missing choices[0].message.content")),
                    }
                },
                None => Err(String::from_str("decode failed")),
            }
        },
    }
}

/// How a non-success response is handled before it is declared fatal.
#[derive(Clone, Copy, PartialEq, Eq, Structural, Debug)]
pub enum HttpErrorClass {
    /// The server demands an explicit output-token ceiling: retry the round
    /// once with the fixed high ceiling set.
    MissingMaxTokens,
    /// The server rejects streaming itself: fall back to batch transport and
    /// retry the round.
    StreamUnsupported,
    /// Anything else ends the whole request.
    Fatal,
}

/// The lowered body names the output-token field.
pub open spec fn mentions_max_tokens(lowered: Seq<char>) -> bool {
    contains_seq(lowered, "max_tokens"@)
}

/// The lowered body rejects streaming.
pub open spec fn rejects_streaming(lowered: Seq<char>) -> bool {
    contains_seq(lowered, "stream"@) && (contains_seq(lowered, "not support"@) || contains_seq(
        lowered,
        "unsupported"@,
    ) || contains_seq(lowered, "invalid"@) || contains_seq(lowered, "unknown"@))
}

/// How a non-success body classifies, given which recoveries are still
/// available this round.
pub open spec fn classify_spec(
    lowered: Seq<char>,
    client_error: bool,
    ceiling_retry_available: bool,
    stream_fallback_available: bool,
) -> HttpErrorClass {
    if client_error && ceiling_retry_available && mentions_max_tokens(lowered) {
        HttpErrorClass::MissingMaxTokens
    } else if stream_fallback_available && rejects_streaming(lowered) {
        HttpErrorClass::StreamUnsupported
    } else {
        HttpErrorClass::Fatal
    }
}

/// Classifies a non-success response body: the two recoverable patterns are
/// checked on the lowercased body, anything else is fatal.
pub fn classify_http_error(
    body: &str,
    client_error: bool,
    ceiling_retry_available: bool,
    stream_fallback_available: bool,
) -> (r: HttpErrorClass)
    ensures
        r == classify_spec(
            lower_of(body@),
            client_error,
            ceiling_retry_available,
            stream_fallback_available,
        ),
{
    let lowered = lowercase(body);
    let l = lowered.as_str();
    if client_error && ceiling_retry_available && str_contains(l, "max_tokens") {
        return HttpErrorClass::MissingMaxTokens;
    }
    if stream_fallback_available && str_contains(l, "stream") && (str_contains(l, "not support")
        || str_contains(l, "unsupported") || str_contains(l, "invalid") || str_contains(
        l,
        "unknown",
    )) {
        return HttpErrorClass::StreamUnsupported;
    }
    HttpErrorClass::Fatal
}

/// The endpoint for the OpenAI schema: the base with trailing slashes
/// trimmed, then the chat-completions path.
pub open spec fn trim_trailing_slashes(s: Seq<char>) -> Seq<char>
    decreases s.len(),
{
    if s.len() > 0 && s[s.len() - 1] == '/' {
        trim_trailing_slashes(s.take(s.len() - 1))
    } else {
        s
    }
}

/// Removes every trailing slash of `base`.
fn trim_slashes(base: &str) -> (r: String)
    ensures
        r@ == trim_trailing_slashes(base@),
{
    let chars = chars_of(base);
    let n = chars.len();
    let mut b: usize = n;
    proof {
        assert(base@.take(n as int) =~= base@);
    }
    while b > 0 && chars[b - 1] == '/'
        invariant
            chars@ == base@,
            n == base@.len(),
            b <= n,
            trim_trailing_slashes(base@) == trim_trailing_slashes(base@.take(b as int)),
        decreases b,
    {
        proof {
            assert(base@.take(b as int).take(b - 1) =~= base@.take(b - 1));
        }
        b = b - 1;
    }
    let mut out: Vec<char> = Vec::new();
    let mut i: usize = 0;
    while i < b
        invariant
            chars@ == base@,
            i <= b <= base@.len(),
            out@ == base@.take(b as int).take(i as int),
        decreases b - i,
    {
        out.push(chars[i]);
        i = i + 1;
        proof {
            assert(out@ =~= base@.take(b as int).take(i as int));
        }
    }
    proof {
        if b < base@.len() {
            assert(trim_trailing_slashes(base@.take(b as int)) == base@.take(b as int));
        }
        assert(out@ =~= base@.take(b as int));
    }
    string_of(&out)
}

/// The request endpoint for the OpenAI schema.
pub fn openai_endpoint(base: &str) -> (r: String)
    ensures
        r@ == trim_trailing_slashes(base@) + "/chat/completions"@,
{
    let mut url = trim_slashes(base);
    append_str(&mut url, "/chat/completions");
    url
}

/// The request endpoint for the Anthropic schema: the default public
/// endpoint for an empty base, the base itself when it already names the
/// messages path, the messages path appended otherwise.
pub open spec fn anthropic_endpoint_spec(base: Seq<char>) -> Seq<char> {
    let b = trim_trailing_slashes(base);
    if b.len() == 0 {
        "https://api.anthropic.com/v1/messages"@
    } else if ends_with_spec(b, "/messages"@) {
        b
    } else {
        b + "/messages"@
    }
}

/// The request endpoint for the Anthropic schema.
pub fn anthropic_endpoint(base: &str) -> (r: String)
    ensures
        r@ == anthropic_endpoint_spec(base@),
{
    let b = trim_slashes(base);
    if b.as_str().is_empty() {
        String::from_str("https://api.anthropic.com/v1/messages")
    } else if str_ends_with(b.as_str(), "/messages") {
        b
    } else {
        let mut url = b;
        append_str(&mut url, "/messages");
        url
    }
}

/// The credential a round uses: the looked-up secret for this provider when
/// one exists, else the statically configured value, trimmed. A blank
/// result is a fatal configuration error, reported before any network call.
pub open spec fn resolved_credential(looked_up: Option<String>, configured: Seq<char>) -> Seq<
    char,
> {
    match looked_up {
        Option::Some(v) => v@,
        Option::None => trim_spec(configured),
    }
}

/// Resolves the request credential, failing on a blank one.
pub fn resolve_credential(looked_up: Option<String>, configured: &str, provider_id: &str) -> (r:
    Result<String, String>)
    ensures
        match r {
            Ok(key) => key@ == resolved_credential(looked_up, configured@) && trim_spec(key@).len()
                > 0,
            Err(m) => trim_spec(resolved_credential(looked_up, configured@)).len() == 0 && m@
                == "api key not found for provider="@ + provider_id@,
        },
{
    let key = match looked_up {
        Some(v) => v,
        None => str_trim(configured),
    };
    let trimmed = str_trim(key.as_str());
    proof {
        crate::text::lemma_trim_idempotent(configured@);
    }
    if trimmed.as_str().is_empty() {
        let mut m = String::new();
        append_str(&mut m, "api key not found for provider=");
        append_str(&mut m, provider_id);
        proof {
            assert(m@ =~= "api key not found for provider="@ + provider_id@);
        }
        Err(m)
    } else {
        Ok(key)
    }
}

}

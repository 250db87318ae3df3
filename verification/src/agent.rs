//! The conversational-agent WebSocket protocol: the JSON messages sent to
//! the agent and the action taken on each event it sends back.
//!
//! Outgoing audio is 16 kHz PCM16, Base64-encoded, in
//! `{"user_audio_chunk":"..."}`; incoming events are told apart by their
//! `"type"` and answered (`ping` → `pong`), played (`audio`), or acted on
//! (`interruption`, `agent_response`).

use vstd::prelude::*;
use vstd::string::StringExecFns;
use crate::base64::{
    base64_decode, base64_encode, decode_spec, encode_spec, is_base64_char, lemma_encode_chars,
};
use crate::pcm::{pcm16_bytes, pcm16_decode, pcm16_encode, pcm16_samples};
use vstd::string::StringSliceAdditionalSpecFns;

verus! {

/// What `serde_json` finds as a string at `path` in the JSON text `text`:
/// `None` when the text does not parse or the value there is not a string.
pub uninterp spec fn json_text_at(text: Seq<char>, path: Seq<Seq<char>>) -> Option<Seq<char>>;

/// The compact JSON text `serde_json` writes for the value at `path` in the
/// JSON text `text` (`null` where nothing is); `None` when the text does
/// not parse.
pub uninterp spec fn json_value_text_at(text: Seq<char>, path: Seq<Seq<char>>) -> Option<
    Seq<char>,
>;

/// A lower-case hexadecimal digit.
pub open spec fn hex_digit(d: int) -> char {
    if d < 10 {
        (48 + d) as char
    } else {
        (87 + d) as char
    }
}

/// How one character is written inside a JSON string: `"` and `\` and the
/// control characters below U+0020 are escaped (`\b \t \n \f \r` where
/// they have a short form, `\u00XX` with lower-case hex otherwise);
/// everything else is written as is.
pub open spec fn json_escape_char(c: char) -> Seq<char> {
    let v = c as u32;
    if v == 34 {
        seq!['\\', '"']
    } else if v == 92 {
        seq!['\\', '\\']
    } else if v == 8 {
        seq!['\\', 'b']
    } else if v == 9 {
        seq!['\\', 't']
    } else if v == 10 {
        seq!['\\', 'n']
    } else if v == 12 {
        seq!['\\', 'f']
    } else if v == 13 {
        seq!['\\', 'r']
    } else if v < 32 {
        seq!['\\', 'u', '0', '0', hex_digit((v / 16) as int), hex_digit((v % 16) as int)]
    } else {
        seq![c]
    }
}

/// The escaped contents of a JSON string.
pub open spec fn json_escape(s: Seq<char>) -> Seq<char>
    decreases s.len(),
{
    if s.len() == 0 {
        Seq::empty()
    } else {
        json_escape(s.drop_last()) + json_escape_char(s.last())
    }
}

/// The JSON string literal for `s`, as `serde_json` writes it.
pub open spec fn json_quoted(s: Seq<char>) -> Seq<char> {
    seq!['"'] + json_escape(s) + seq!['"']
}

/// Base64 text needs no escaping.
proof fn lemma_escape_base64(s: Seq<char>)
    requires
        forall|i: int| 0 <= i < s.len() ==> is_base64_char(#[trigger] s[i]),
    ensures
        json_escape(s) == s,
    decreases s.len(),
{
    if s.len() > 0 {
        assert forall|i: int| 0 <= i < s.drop_last().len() implies is_base64_char(
            #[trigger] s.drop_last()[i],
        ) by {
            assert(s.drop_last()[i] == s[i]);
        }
        lemma_escape_base64(s.drop_last());
        assert(is_base64_char(s[s.len() - 1]));
        assert(s.drop_last() + seq![s.last()] =~= s);
    }
}

/// The message of the error `serde_json` reports for `text`, or `None` when
/// `text` parses as JSON.
pub uninterp spec fn json_error_text(text: Seq<char>) -> Option<Seq<char>>;

/// Parses `text` with `serde_json::from_str` into a `serde_json::Value`,
/// indexes it by `key` (`Value`'s `Index<&str>`), and returns the string
/// there (`Value::as_str`). The contract claims only that the result is
/// the named function of the text and the key.
#[verifier::external_body]
fn json_text_field(text: &str, key: &str) -> (r: Option<String>)
    ensures
        match r {
            Some(s) => json_text_at(text@, seq![key@]) == Some(s@),
            None => json_text_at(text@, seq![key@]) is None,
        },
{
    let v: serde_json::Value = serde_json::from_str(text).ok()?;
    v[key].as_str().map(|s| s.to_string())
}

/// As [`json_text_field`], one object level deeper: `v[outer][inner]`.
#[verifier::external_body]
fn json_nested_text_field(text: &str, outer: &str, inner: &str) -> (r: Option<String>)
    ensures
        match r {
            Some(s) => json_text_at(text@, seq![outer@, inner@]) == Some(s@),
            None => json_text_at(text@, seq![outer@, inner@]) is None,
        },
{
    let v: serde_json::Value = serde_json::from_str(text).ok()?;
    v[outer][inner].as_str().map(|s| s.to_string())
}

/// Parses `text` with `serde_json::from_str`, indexes `v[outer][inner]` and
/// writes that value back as compact JSON (`Value`'s `Display`). The
/// contract claims only that the result is the named function of its
/// arguments.
#[verifier::external_body]
fn json_nested_value_text(text: &str, outer: &str, inner: &str) -> (r: Option<String>)
    ensures
        match r {
            Some(s) => json_value_text_at(text@, seq![outer@, inner@]) == Some(s@),
            None => json_value_text_at(text@, seq![outer@, inner@]) is None,
        },
{
    let v: serde_json::Value = serde_json::from_str(text).ok()?;
    Some(v[outer][inner].to_string())
}

/// Writes `s` as a JSON string literal (`serde_json::Value::String`'s
/// `Display`, the compact formatter): the contract states its escaping.
#[verifier::external_body]
fn json_quote(s: &str) -> (r: String)
    ensures
        r@ == json_quoted(s@),
{
    serde_json::Value::from(s).to_string()
}

/// The message of the error `serde_json::from_str::<Value>` reports for
/// `text` (its `Display`), or `None` when it parses.
#[verifier::external_body]
fn json_parse_error(text: &str) -> (r: Option<String>)
    ensures
        match r {
            Some(s) => json_error_text(text@) == Some(s@),
            None => json_error_text(text@) is None,
        },
{
    match serde_json::from_str::<serde_json::Value>(text) {
        Ok(_) => None,
        Err(e) => Some(e.to_string()),
    }
}

/// The message that carries one chunk of user audio: its PCM16 bytes in
/// Base64, inside `{"user_audio_chunk":"..."}`.
pub open spec fn audio_chunk_spec(samples: Seq<i16>) -> Seq<char> {
    "{\"user_audio_chunk\":\""@ + encode_spec(pcm16_bytes(samples)) + "\"}"@
}

/// The reply to a keep-alive ping carrying the given event id (as JSON).
pub open spec fn pong_spec(event_id: Seq<char>) -> Seq<char> {
    "{\"event_id\":"@ + event_id + ",\"type\":\"pong\"}"@
}

/// The message that opens a conversation.
pub fn conversation_start_message() -> (m: String)
    ensures
        m@ == start_spec(),
{
    String::from_str("{\"type\":\"conversation_initiation_client_data\"}")
}

/// The message carrying a chunk of cleaned 16 kHz audio: the samples as
/// little-endian PCM16, Base64-encoded, in `{"user_audio_chunk":"..."}`.
pub fn audio_chunk_message(samples: &[i16]) -> (m: String)
    ensures
        m@ == audio_chunk_spec(samples@),
{
    let pcm = pcm16_encode(samples);
    let b64 = base64_encode(pcm.as_slice());
    let quoted = json_quote(b64.as_str());
    proof {
        lemma_encode_chars(pcm@);
        lemma_escape_base64(b64@);
        reveal_strlit("{\"user_audio_chunk\":");
        reveal_strlit("{\"user_audio_chunk\":\"");
        reveal_strlit("}");
        reveal_strlit("\"}");
    }
    let m = user_audio_message(quoted.as_str());
    proof {
        assert(m@ =~= audio_chunk_spec(samples@));
    }
    m
}

/// The user-audio message around an already quoted JSON string.
pub fn user_audio_message(quoted: &str) -> (m: String)
    ensures
        m@ == "{\"user_audio_chunk\":"@ + quoted@ + "}"@,
{
    let mut m = String::from_str("{\"user_audio_chunk\":");
    m.append(quoted);
    m.append("}");
    m
}

/// The reply to a ping whose event id is the JSON text `event_id`.
pub fn pong_message(event_id: &str) -> (m: String)
    ensures
        m@ == pong_spec(event_id@),
{
    let mut m = String::from_str("{\"event_id\":");
    m.append(event_id);
    m.append(",\"type\":\"pong\"}");
    m
}

/// What to do with one event received from the agent.
#[derive(Debug)]
pub enum AgentAction {
    /// Send this reply (a `pong`).
    Reply(String),
    /// Queue these 16 kHz samples for playback.
    Play(Vec<i16>),
    /// The user barged in: drop queued playback.
    ClearPlayback,
    /// Show the agent's response text.
    Show(String),
    /// Nothing to do.
    Nothing,
}

/// The action owed for an event of type `kind` whose payload field (for
/// `ping` the JSON text of `ping_event.event_id`, for `audio` the string
/// `audio_event.audio_base_64`, for `agent_response` the string
/// `agent_response_event.agent_response`) is `field`: `ping` is answered
/// with a `pong` echoing the id; `audio` plays the decoded PCM of its Base64
/// payload (nothing when it is missing or not Base64); `interruption` clears
/// playback; `agent_response` shows its text; anything else is ignored.
pub open spec fn action_spec(kind: Option<Seq<char>>, field: Option<Seq<char>>, a: AgentAction) -> bool {
    if kind == Some("ping"@) {
        match field {
            Some(id) => a matches AgentAction::Reply(m) && m@ == pong_spec(id),
            None => a is Nothing,
        }
    } else if kind == Some("audio"@) {
        match field {
            Some(b64) => match decode_spec(vstd::utf8::encode_utf8(b64)) {
                Some(bytes) => a matches AgentAction::Play(s) && s@ == pcm16_samples(bytes),
                None => a is Nothing,
            },
            None => a is Nothing,
        }
    } else if kind == Some("interruption"@) {
        a is ClearPlayback
    } else if kind == Some("agent_response"@) {
        match field {
            Some(t) => a matches AgentAction::Show(s) && s@ == t,
            None => a is Nothing,
        }
    } else {
        a is Nothing
    }
}

/// The payload field read for an event of type `kind`, as `serde_json`
/// finds it in the event text.
pub open spec fn event_field(text: Seq<char>, kind: Option<Seq<char>>) -> Option<Seq<char>> {
    if kind == Some("ping"@) {
        json_value_text_at(text, seq!["ping_event"@, "event_id"@])
    } else if kind == Some("audio"@) {
        json_text_at(text, seq!["audio_event"@, "audio_base_64"@])
    } else if kind == Some("agent_response"@) {
        json_text_at(text, seq!["agent_response_event"@, "agent_response"@])
    } else {
        None
    }
}

fn opt_view(o: &Option<String>) -> (r: Option<&str>)
    ensures
        match o {
            Some(s) => r matches Some(t) && t@ == s@,
            None => r is None,
        },
{
    match o {
        Some(s) => Some(s.as_str()),
        None => None,
    }
}

/// Decides the action for an event of type `kind` with payload `field`.
pub fn action_for(kind: Option<&str>, field: Option<&str>) -> (a: AgentAction)
    ensures
        action_spec(
            match kind {
                Some(k) => Some(k@),
                None => None,
            },
            match field {
                Some(f) => Some(f@),
                None => None,
            },
            a,
        ),
{
    let k = match kind {
        Some(k) => String::from_str(k),
        None => return AgentAction::Nothing,
    };
    if k == String::from_str("ping") {
        match field {
            Some(id) => AgentAction::Reply(pong_message(id)),
            None => AgentAction::Nothing,
        }
    } else if k == String::from_str("audio") {
        match field {
            Some(b64) => match base64_decode(b64) {
                Some(bytes) => AgentAction::Play(pcm16_decode(bytes.as_slice())),
                None => AgentAction::Nothing,
            },
            None => AgentAction::Nothing,
        }
    } else if k == String::from_str("interruption") {
        AgentAction::ClearPlayback
    } else if k == String::from_str("agent_response") {
        match field {
            Some(t) => AgentAction::Show(String::from_str(t)),
            None => AgentAction::Nothing,
        }
    } else {
        AgentAction::Nothing
    }
}

/// Decides what to do with one event text received from the agent: its
/// `"type"` and payload field are read with `serde_json`, then
/// [`action_for`] decides.
pub fn agent_event_action(text: &str) -> (a: AgentAction)
    ensures
        action_spec(
            json_text_at(text@, seq!["type"@]),
            event_field(text@, json_text_at(text@, seq!["type"@])),
            a,
        ),
{
    let kind = json_text_field(text, "type");
    let field: Option<String> = match &kind {
        Some(k) => {
            if *k == String::from_str("ping") {
                json_nested_value_text(text, "ping_event", "event_id")
            } else if *k == String::from_str("audio") {
                json_nested_text_field(text, "audio_event", "audio_base_64")
            } else if *k == String::from_str("agent_response") {
                json_nested_text_field(text, "agent_response_event", "agent_response")
            } else {
                None
            }
        },
        None => None,
    };
    action_for(opt_view(&kind), opt_view(&field))
}

/// How to reach the agent.
#[derive(Debug)]
pub enum ConnectPlan {
    /// A public agent: connect to this WebSocket URL.
    Direct(String),
    /// A private agent: first fetch a signed URL from this endpoint, sending
    /// this API key.
    FetchSigned { endpoint: String, api_key: String },
}

/// Decides how to connect: an agent id is required; with a non-empty API
/// key a signed URL is requested for it, otherwise the public endpoint is
/// used.
pub fn connection_plan(agent_id: Option<&str>, api_key: Option<&str>) -> (r: Result<
    ConnectPlan,
    String,
>)
    ensures
        agent_id is None ==> (r matches Err(e) && e@ == "live mode requires --agent-id <id>"@),
        agent_id matches Some(id) ==> (match api_key {
            Some(k) if k@.len() > 0 => r matches Ok(ConnectPlan::FetchSigned { endpoint, api_key })
                && endpoint@
                == "https://api.elevenlabs.io/v1/convai/conversation/get-signed-url?agent_id="@
                + id@ && api_key@ == k@,
            _ => r matches Ok(ConnectPlan::Direct(url)) && url@
                == "wss://api.elevenlabs.io/v1/convai/conversation?agent_id="@ + id@,
        }),
{
    let id = match agent_id {
        Some(id) => id,
        None => return Err(String::from_str("live mode requires --agent-id <id>")),
    };
    match api_key {
        Some(k) if k.unicode_len() > 0 => {
            let mut endpoint = String::from_str(
                "https://api.elevenlabs.io/v1/convai/conversation/get-signed-url?agent_id=",
            );
            endpoint.append(id);
            Ok(ConnectPlan::FetchSigned { endpoint, api_key: String::from_str(k) })
        },
        _ => {
            let mut url = String::from_str("wss://api.elevenlabs.io/v1/convai/conversation?agent_id=");
            url.append(id);
            Ok(ConnectPlan::Direct(url))
        },
    }
}

/// The outcome of the signed-URL request given the body, the parser's
/// error message (when the body is not JSON) and the `signed_url` string
/// found in it.
pub fn signed_url_outcome(body: &str, parse_error: Option<&str>, signed_url: Option<&str>) -> (r:
    Result<String, String>)
    ensures
        match parse_error {
            Some(msg) => r matches Err(e) && e@ == msg@,
            None => match signed_url {
                Some(u) => r matches Ok(s) && s@ == u@,
                None => r matches Err(e) && e@ == "no signed_url in response: "@ + body@,
            },
        },
{
    if let Some(msg) = parse_error {
        return Err(String::from_str(msg));
    }
    match signed_url {
        Some(u) => Ok(String::from_str(u)),
        None => {
            let mut e = String::from_str("no signed_url in response: ");
            e.append(body);
            Err(e)
        },
    }
}

/// Extracts the signed WebSocket URL from the endpoint's JSON reply: the
/// parser's message when the body is not JSON, an error naming the body
/// when it has no `signed_url` string.
pub fn signed_url_from_response(body: &str) -> (r: Result<String, String>)
    ensures
        match json_error_text(body@) {
            Some(msg) => r matches Err(e) && e@ == msg,
            None => match json_text_at(body@, seq!["signed_url"@]) {
                Some(u) => r matches Ok(s) && s@ == u,
                None => r matches Err(e) && e@ == "no signed_url in response: "@ + body@,
            },
        },
{
    let err = json_parse_error(body);
    let url = if err.is_none() {
        json_text_field(body, "signed_url")
    } else {
        None
    };
    signed_url_outcome(body, opt_view(&err), opt_view(&url))
}

/// The text of the message that opens a conversation.
pub open spec fn start_spec() -> Seq<char> {
    "{\"type\":\"conversation_initiation_client_data\"}"@
}

/// Where a live session stands.
#[derive(Clone, Copy, Debug, PartialEq, Eq, Structural)]
pub enum LivePhase {
    /// The WebSocket is not connected yet.
    Connecting,
    /// Connected: audio goes out, agent events come in.
    Streaming,
    /// The session is over.
    Ended,
}

/// What happened in the live loop.
#[derive(Debug)]
pub enum LiveEvent {
    /// The WebSocket connected.
    Connected,
    /// The engine cleaned a mic chunk into these 16 kHz samples.
    CleanAudio(Vec<i16>),
    /// Sending an audio message failed.
    AudioSendFailed,
    /// A text frame arrived.
    Text(String),
    /// A ping frame arrived with this payload.
    Ping(Vec<u8>),
    /// The agent closed the conversation.
    CloseFrame,
    /// Some other frame arrived.
    OtherFrame,
    /// No frame arrived before the read timed out.
    ReadTimedOut,
    /// The connection is closed.
    ConnectionClosed,
    /// Reading failed; the error's message.
    ReadFailed(String),
}

/// What the live loop does next.
#[derive(Debug)]
pub enum LiveStep {
    /// Send this text message (a failed audio send is reported back as
    /// [`LiveEvent::AudioSendFailed`]).
    Send(String),
    /// Answer a ping frame with a pong frame carrying this payload.
    Pong(Vec<u8>),
    /// Carry out what an agent event asks for.
    Agent(AgentAction),
    /// Nothing to do; keep looping.
    Wait,
    /// Leave the loop with this result.
    Finish(Result<(), String>),
}

/// The phase after `e` in phase `p`: connecting ends at the connection;
/// a failed audio send, a close frame, a closed connection or a read error
/// end the stream.
pub open spec fn next_phase(p: LivePhase, e: LiveEvent) -> LivePhase {
    match p {
        LivePhase::Connecting => if e is Connected {
            LivePhase::Streaming
        } else {
            LivePhase::Connecting
        },
        LivePhase::Streaming => if e is AudioSendFailed || e is CloseFrame || e is ConnectionClosed
            || e is ReadFailed {
            LivePhase::Ended
        } else {
            LivePhase::Streaming
        },
        LivePhase::Ended => LivePhase::Ended,
    }
}

/// The text message sent on `e` in phase `p`, if any: the opening message
/// on connecting, and one audio message per non-empty cleaned chunk while
/// streaming.
pub open spec fn step_text(p: LivePhase, e: LiveEvent) -> Option<Seq<char>> {
    if p == LivePhase::Connecting && e is Connected {
        Some(start_spec())
    } else if p == LivePhase::Streaming {
        match e {
            LiveEvent::CleanAudio(s) => if s@.len() > 0 {
                Some(audio_chunk_spec(s@))
            } else {
                None
            },
            _ => None,
        }
    } else {
        None
    }
}

/// The whole of one step: `s` is what the loop does on `e` in phase `p`.
pub open spec fn step_spec(p: LivePhase, e: LiveEvent, s: LiveStep) -> bool {
    match step_text(p, e) {
        Some(m) => s matches LiveStep::Send(t) && t@ == m,
        None => if p == LivePhase::Streaming {
            match e {
                LiveEvent::Ping(q) => s matches LiveStep::Pong(r) && r@ == q@,
                LiveEvent::Text(t) => s matches LiveStep::Agent(a) && action_spec(
                    json_text_at(t@, seq!["type"@]),
                    event_field(t@, json_text_at(t@, seq!["type"@])),
                    a,
                ),
                LiveEvent::AudioSendFailed => s matches LiveStep::Finish(r) && r is Ok,
                LiveEvent::CloseFrame => s matches LiveStep::Finish(r) && r is Ok,
                LiveEvent::ConnectionClosed => s matches LiveStep::Finish(r) && r is Ok,
                LiveEvent::ReadFailed(msg) => s matches LiveStep::Finish(r) && r matches Err(m)
                    && m@ == "websocket error: "@ + msg@,
                _ => s is Wait,
            }
        } else {
            s is Wait
        },
    }
}

/// The phase after the events `es` in turn, from connecting.
pub open spec fn phase_after(es: Seq<LiveEvent>) -> LivePhase
    decreases es.len(),
{
    if es.len() == 0 {
        LivePhase::Connecting
    } else {
        next_phase(phase_after(es.drop_last()), es.last())
    }
}

/// The text messages sent over the events `es` in turn, from connecting.
pub open spec fn session_texts(es: Seq<LiveEvent>) -> Seq<Seq<char>>
    decreases es.len(),
{
    if es.len() == 0 {
        Seq::empty()
    } else {
        let before = session_texts(es.drop_last());
        match step_text(phase_after(es.drop_last()), es.last()) {
            Some(m) => before.push(m),
            None => before,
        }
    }
}

/// A cleaned chunk with samples in it.
pub open spec fn is_audible(e: LiveEvent) -> bool {
    e matches LiveEvent::CleanAudio(s) && s@.len() > 0
}

/// The audio message for a cleaned chunk.
pub open spec fn audio_text(e: LiveEvent) -> Seq<char> {
    match e {
        LiveEvent::CleanAudio(s) => audio_chunk_spec(s@),
        _ => Seq::empty(),
    }
}

/// The live loop's decisions.
pub struct LiveSession {
    phase: LivePhase,
}

impl LiveSession {
    pub closed spec fn phase(&self) -> LivePhase {
        self.phase
    }

    /// A session that is not connected yet.
    pub fn new() -> (s: LiveSession)
        ensures
            s.phase() == LivePhase::Connecting,
    {
        LiveSession { phase: LivePhase::Connecting }
    }

    /// Whether the session is over.
    pub fn is_ended(&self) -> (b: bool)
        ensures
            b == (self.phase() == LivePhase::Ended),
    {
        self.phase == LivePhase::Ended
    }

    /// Decides what to do on one event of the loop.
    pub fn step(&mut self, e: LiveEvent) -> (s: LiveStep)
        ensures
            final(self).phase() == next_phase(old(self).phase(), e),
            step_spec(old(self).phase(), e, s),
            old(self).phase() == LivePhase::Connecting && e is Connected ==> (final(self).phase()
                == LivePhase::Streaming && (s matches LiveStep::Send(m) && m@
                == "{\"type\":\"conversation_initiation_client_data\"}"@)),
            old(self).phase() == LivePhase::Streaming && (e is CloseFrame || e is ConnectionClosed
                || e is AudioSendFailed) ==> (final(self).phase() == LivePhase::Ended && (s matches LiveStep::Finish(r) && r is Ok)),
            old(self).phase() == LivePhase::Streaming && e is ReadFailed ==> (final(self).phase()
                == LivePhase::Ended && (s matches LiveStep::Finish(r) && (r matches Err(m) && m@
                == "websocket error: "@ + e->ReadFailed_0@))),
            old(self).phase() == LivePhase::Streaming && e is CleanAudio ==> (final(self).phase()
                == LivePhase::Streaming && (e->CleanAudio_0@.len() == 0 ==> s is Wait) && (
            e->CleanAudio_0@.len() > 0 ==> (s matches LiveStep::Send(m) && m@ == audio_chunk_spec(
                e->CleanAudio_0@,
            )))),
            old(self).phase() == LivePhase::Streaming && e is Ping ==> (final(self).phase()
                == LivePhase::Streaming && (s matches LiveStep::Pong(p) && p@ == e->Ping_0@)),
            old(self).phase() == LivePhase::Ended ==> final(self).phase() == LivePhase::Ended
                && s is Wait,
    {
        let p = self.phase;
        match p {
            LivePhase::Connecting => match e {
                LiveEvent::Connected => {
                    self.phase = LivePhase::Streaming;
                    LiveStep::Send(conversation_start_message())
                },
                _ => LiveStep::Wait,
            },
            LivePhase::Ended => LiveStep::Wait,
            LivePhase::Streaming => match e {
                LiveEvent::CleanAudio(samples) => {
                    if samples.len() == 0 {
                        LiveStep::Wait
                    } else {
                        LiveStep::Send(audio_chunk_message(samples.as_slice()))
                    }
                },
                LiveEvent::Text(t) => LiveStep::Agent(agent_event_action(t.as_str())),
                LiveEvent::Ping(payload) => LiveStep::Pong(payload),
                LiveEvent::AudioSendFailed => {
                    self.phase = LivePhase::Ended;
                    LiveStep::Finish(Ok(()))
                },
                LiveEvent::CloseFrame => {
                    self.phase = LivePhase::Ended;
                    LiveStep::Finish(Ok(()))
                },
                LiveEvent::ConnectionClosed => {
                    self.phase = LivePhase::Ended;
                    LiveStep::Finish(Ok(()))
                },
                LiveEvent::ReadFailed(msg) => {
                    self.phase = LivePhase::Ended;
                    let mut m = String::from_str("websocket error: ");
                    m.append(msg.as_str());
                    LiveStep::Finish(Err(m))
                },
                _ => LiveStep::Wait,
            },
        }
    }
}

/// The messages of a session that connects and then only streams audio:
/// the opening message first, then one audio message for each non-empty
/// cleaned chunk, in order; empty chunks send nothing.
pub proof fn lemma_session_messages(es: Seq<LiveEvent>)
    requires
        es.len() >= 1,
        es[0] is Connected,
        forall|i: int| 1 <= i < es.len() ==> #[trigger] es[i] is CleanAudio,
    ensures
        phase_after(es) == LivePhase::Streaming,
        session_texts(es) == seq![start_spec()] + es.skip(1).filter(|e: LiveEvent| is_audible(e))
            .map_values(|e: LiveEvent| audio_text(e)),
    decreases es.len(),
{
    reveal(Seq::filter);
    let f = |e: LiveEvent| is_audible(e);
    let g = |e: LiveEvent| audio_text(e);
    if es.len() == 1 {
        assert(es.drop_last().len() == 0);
        assert(es.last() == es[0]);
        assert(session_texts(es.drop_last()) == Seq::<Seq<char>>::empty());
        assert(phase_after(es.drop_last()) == LivePhase::Connecting);
        assert(step_text(LivePhase::Connecting, es.last()) == Some(start_spec()));
        assert(es.skip(1).len() == 0);
        assert(es.skip(1).filter(f) =~= Seq::<LiveEvent>::empty());
        assert(es.skip(1).filter(f).map_values(g) =~= Seq::<Seq<char>>::empty());
        assert(session_texts(es) =~= seq![start_spec()]);
    } else {
        let init = es.drop_last();
        assert forall|i: int| 1 <= i < init.len() implies #[trigger] init[i] is CleanAudio by {
            assert(init[i] == es[i]);
        }
        lemma_session_messages(init);
        assert(es.skip(1).drop_last() =~= init.skip(1));
        assert(es.skip(1).last() == es.last());
        assert(es.last() is CleanAudio) by {
            assert(es[es.len() - 1] is CleanAudio);
        }
        let prev = init.skip(1).filter(f);
        if is_audible(es.last()) {
            assert(es.skip(1).filter(f) == prev.push(es.last()));
            assert(prev.push(es.last()).map_values(g) =~= prev.map_values(g).push(audio_text(es.last())));
        } else {
            assert(es.skip(1).filter(f) == prev);
        }
    }
}

/// Once a session has ended, nothing more is sent: the messages of the
/// whole run are those sent up to the event that ended it.
pub proof fn lemma_nothing_after_end(es: Seq<LiveEvent>, k: int)
    requires
        0 <= k <= es.len(),
        phase_after(es.take(k)) == LivePhase::Ended,
    ensures
        phase_after(es) == LivePhase::Ended,
        session_texts(es) == session_texts(es.take(k)),
    decreases es.len() - k,
{
    if k < es.len() {
        let k1 = k + 1;
        assert(es.take(k1).drop_last() =~= es.take(k));
        assert(es.take(k1).last() == es[k]);
        lemma_nothing_after_end(es, k1);
    } else {
        assert(es.take(k) =~= es);
    }
}

/// A session that is streaming ends on a close frame from the agent, a
/// closed connection, a failed audio send or a read error, and on nothing
/// else; a session never leaves the ended phase.
pub proof fn lemma_session_ends(es: Seq<LiveEvent>, k: int)
    requires
        0 <= k < es.len(),
        phase_after(es.take(k)) == LivePhase::Streaming,
    ensures
        (phase_after(es.take(k + 1)) == LivePhase::Ended) <==> (es[k] is CloseFrame
            || es[k] is ConnectionClosed || es[k] is AudioSendFailed || es[k] is ReadFailed),
        (phase_after(es.take(k + 1)) == LivePhase::Ended) || (phase_after(es.take(k + 1))
            == LivePhase::Streaming),
{
    assert(es.take(k + 1).drop_last() =~= es.take(k));
    assert(es.take(k + 1).last() == es[k]);
}

} // verus!

use voicecore::agent::{
    action_for, agent_event_action, audio_chunk_message, connection_plan, conversation_start_message,
    pong_message, signed_url_from_response, signed_url_outcome, user_audio_message, AgentAction,
    ConnectPlan, LiveEvent, LiveSession, LiveStep,
};

fn object(pairs: &[(&str, serde_json::Value)]) -> serde_json::Value {
    let mut m = serde_json::Map::new();
    for (k, v) in pairs {
        m.insert(k.to_string(), v.clone());
    }
    serde_json::Value::Object(m)
}

#[test]
fn start_message_is_initiation() {
    let expected = object(&[("type", "conversation_initiation_client_data".into())]).to_string();
    assert_eq!(conversation_start_message(), expected);
}

#[test]
fn audio_chunk_carries_base64_pcm16() {
    let m = audio_chunk_message(&[0, 1, -1]);
    assert_eq!(m, "{\"user_audio_chunk\":\"AAABAP//\"}");
    let expected = object(&[("user_audio_chunk", "AAABAP//".into())]).to_string();
    assert_eq!(m, expected);
}

#[test]
fn user_audio_message_wraps_quoted_text() {
    assert_eq!(user_audio_message("\"abc\""), "{\"user_audio_chunk\":\"abc\"}");
}

#[test]
fn pong_matches_serde_object_layout() {
    let expected = object(&[("type", "pong".into()), ("event_id", 7.into())]).to_string();
    assert_eq!(pong_message("7"), expected);
}

#[test]
fn ping_is_answered_with_its_event_id() {
    match agent_event_action("{\"type\":\"ping\",\"ping_event\":{\"event_id\":42}}") {
        AgentAction::Reply(m) => assert_eq!(m, "{\"event_id\":42,\"type\":\"pong\"}"),
        other => panic!("unexpected {other:?}"),
    }
    match agent_event_action("{\"type\":\"ping\"}") {
        AgentAction::Reply(m) => assert_eq!(m, "{\"event_id\":null,\"type\":\"pong\"}"),
        other => panic!("unexpected {other:?}"),
    }
}

#[test]
fn audio_event_plays_decoded_pcm() {
    match agent_event_action("{\"type\":\"audio\",\"audio_event\":{\"audio_base_64\":\"AAABAP//\"}}") {
        AgentAction::Play(s) => assert_eq!(s, vec![0, 1, -1]),
        other => panic!("unexpected {other:?}"),
    }
    assert!(matches!(
        agent_event_action("{\"type\":\"audio\",\"audio_event\":{\"audio_base_64\":\"*\"}}"),
        AgentAction::Nothing
    ));
    assert!(matches!(agent_event_action("{\"type\":\"audio\"}"), AgentAction::Nothing));
}

#[test]
fn other_events() {
    assert!(matches!(agent_event_action("{\"type\":\"interruption\"}"), AgentAction::ClearPlayback));
    match agent_event_action(
        "{\"type\":\"agent_response\",\"agent_response_event\":{\"agent_response\":\"hi there\"}}",
    ) {
        AgentAction::Show(t) => assert_eq!(t, "hi there"),
        other => panic!("unexpected {other:?}"),
    }
    assert!(matches!(agent_event_action("{\"type\":\"vad_score\"}"), AgentAction::Nothing));
    assert!(matches!(agent_event_action("not json"), AgentAction::Nothing));
    assert!(matches!(agent_event_action("{\"type\":7}"), AgentAction::Nothing));
}

#[test]
fn action_for_decides_from_fields() {
    assert!(matches!(action_for(Some("interruption"), None), AgentAction::ClearPlayback));
    assert!(matches!(action_for(None, Some("x")), AgentAction::Nothing));
    match action_for(Some("ping"), Some("\"e1\"")) {
        AgentAction::Reply(m) => assert_eq!(m, "{\"event_id\":\"e1\",\"type\":\"pong\"}"),
        other => panic!("unexpected {other:?}"),
    }
    match action_for(Some("audio"), Some("NBI=")) {
        AgentAction::Play(s) => assert_eq!(s, vec![0x1234]),
        other => panic!("unexpected {other:?}"),
    }
}

#[test]
fn connection_needs_agent_and_signs_with_key() {
    match connection_plan(None, Some("k")) {
        Err(e) => assert_eq!(e, "live mode requires --agent-id <id>"),
        Ok(p) => panic!("unexpected {p:?}"),
    }
    match connection_plan(Some("agent_1"), None) {
        Ok(ConnectPlan::Direct(u)) => {
            assert_eq!(u, "wss://api.elevenlabs.io/v1/convai/conversation?agent_id=agent_1")
        }
        other => panic!("unexpected {other:?}"),
    }
    match connection_plan(Some("agent_1"), Some("")) {
        Ok(ConnectPlan::Direct(_)) => {}
        other => panic!("unexpected {other:?}"),
    }
    match connection_plan(Some("agent_1"), Some("sk")) {
        Ok(ConnectPlan::FetchSigned { endpoint, api_key }) => {
            assert_eq!(
                endpoint,
                "https://api.elevenlabs.io/v1/convai/conversation/get-signed-url?agent_id=agent_1"
            );
            assert_eq!(api_key, "sk");
        }
        other => panic!("unexpected {other:?}"),
    }
}

#[test]
fn signed_url_is_read_from_reply() {
    assert_eq!(signed_url_from_response("{\"signed_url\":\"wss://x/y\"}"), Ok("wss://x/y".to_string()));
    assert_eq!(
        signed_url_from_response("{\"other\":1}"),
        Err("no signed_url in response: {\"other\":1}".to_string())
    );
    let parse_msg = serde_json::from_str::<serde_json::Value>("oops").unwrap_err().to_string();
    assert_eq!(signed_url_from_response("oops"), Err(parse_msg));
    assert_eq!(signed_url_outcome("b", Some("bad"), Some("u")), Err("bad".to_string()));
    assert_eq!(signed_url_outcome("b", None, Some("u")), Ok("u".to_string()));
}

#[test]
fn live_session_opens_streams_and_ends() {
    let mut s = LiveSession::new();
    assert!(matches!(s.step(LiveEvent::CleanAudio(vec![1])), LiveStep::Wait));
    match s.step(LiveEvent::Connected) {
        LiveStep::Send(m) => assert_eq!(m, "{\"type\":\"conversation_initiation_client_data\"}"),
        other => panic!("{other:?}"),
    }
    assert!(matches!(s.step(LiveEvent::CleanAudio(vec![])), LiveStep::Wait));
    match s.step(LiveEvent::CleanAudio(vec![1, -1])) {
        LiveStep::Send(m) => assert_eq!(m, "{\"user_audio_chunk\":\"AQD//w==\"}"),
        other => panic!("{other:?}"),
    }
    match s.step(LiveEvent::Ping(vec![9, 8])) {
        LiveStep::Pong(p) => assert_eq!(p, vec![9, 8]),
        other => panic!("{other:?}"),
    }
    match s.step(LiveEvent::Text("{\"type\":\"interruption\"}".to_string())) {
        LiveStep::Agent(AgentAction::ClearPlayback) => {}
        other => panic!("{other:?}"),
    }
    assert!(matches!(s.step(LiveEvent::ReadTimedOut), LiveStep::Wait));
    assert!(!s.is_ended());
    assert!(matches!(s.step(LiveEvent::AudioSendFailed), LiveStep::Finish(Ok(()))));
    assert!(s.is_ended());
    assert!(matches!(s.step(LiveEvent::CleanAudio(vec![5])), LiveStep::Wait));
}

#[test]
fn live_session_read_error_ends_with_message() {
    let mut s = LiveSession::new();
    let _ = s.step(LiveEvent::Connected);
    match s.step(LiveEvent::ReadFailed("boom".to_string())) {
        LiveStep::Finish(Err(e)) => assert_eq!(e, "websocket error: boom"),
        other => panic!("{other:?}"),
    }
    assert!(matches!(s.step(LiveEvent::CloseFrame), LiveStep::Wait));
}

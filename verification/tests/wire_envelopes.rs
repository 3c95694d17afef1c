use tacho_bridge::envelope::{
    is_json_safe, parse_envelope, process_rapdu_mqtt_hex, response_topic, InboundDecision,
    TaskState,
};

#[test]
fn relay_round_trip() {
    // Inbound command envelope against a simulated card answering 9000 on
    // select: the command is relayed and the reply carries the response.
    let mut state = TaskState::new();
    let decision = state.handle_inbound(b"{\"finish\": false, \"payload\": \"00A4020C020002\"}");
    match decision {
        InboundDecision::Relay { apdu_hex } => {
            assert_eq!(apdu_hex, b"00A4020C020002".to_vec());
        }
        _ => panic!("expected a relayed command"),
    }
    assert!(state.auth_in_progress);
    let card_response = "9000"; // what the simulated card transmits back
    assert!(is_json_safe(card_response));
    let reply = process_rapdu_mqtt_hex(card_response);
    assert_eq!(reply, "{\"payload\":\"9000\"}");
    // The reply is real JSON with exactly that payload.
    let parsed: serde_json::Value = serde_json::from_str(&reply).unwrap();
    assert_eq!(parsed.get("payload").unwrap().as_str().unwrap(), "9000");
}

#[test]
fn finish_envelope_acknowledged_with_empty_payload() {
    let mut state = TaskState::new();
    // Start an authentication first, so there is something to finish.
    let _ = state.handle_inbound(b"{\"finish\": false, \"payload\": \"00B0000108\"}");
    assert!(state.auth_in_progress);
    // finish=true asks for a session reconnect and an empty reply payload.
    let decision = state.handle_inbound(b"{\"finish\": true}");
    assert!(matches!(decision, InboundDecision::FinishAck));
    assert!(!state.auth_in_progress);
    assert_eq!(process_rapdu_mqtt_hex(""), "{\"payload\":\"\"}");
}

#[test]
fn empty_payload_answers_with_atr_and_resets_mid_auth() {
    let mut state = TaskState::new();
    let _ = state.handle_inbound(b"{\"finish\": false, \"payload\": \"00B0000108\"}");
    assert!(state.auth_in_progress);
    let decision = state.handle_inbound(b"{\"finish\": false, \"payload\": \"\"}");
    match decision {
        InboundDecision::AtrReply { reset_first } => assert!(reset_first),
        _ => panic!("expected the reset-answer reply"),
    }
    // Outside an authentication no reset is needed first.
    let mut fresh = TaskState::new();
    let decision = fresh.handle_inbound(b"{\"finish\": false, \"payload\": \"\"}");
    match decision {
        InboundDecision::AtrReply { reset_first } => assert!(!reset_first),
        _ => panic!("expected the reset-answer reply"),
    }
}

#[test]
fn malformed_bodies_are_dropped() {
    let mut state = TaskState::new();
    for body in [
        &b"{foo"[..],
        &b""[..],
        &b"[1, 2]"[..],
        &b"{\"finish\": true} trailing"[..],
        &b"{\"payload\": \"00\"}"[..],
        &b"{\"finish\": false}"[..],
    ] {
        let decision = state.handle_inbound(body);
        assert!(matches!(decision, InboundDecision::Drop));
        assert!(!state.auth_in_progress);
    }
}

#[test]
fn envelope_grammar_accepts_whitespace_order_and_extras() {
    let mut state = TaskState::new();
    let d = state.handle_inbound(b"  { \"seq\" : 12.5 , \"finish\" : true }  ");
    assert!(matches!(d, InboundDecision::FinishAck));
    let d = state.handle_inbound(b"{\"payload\": \"AA\", \"finish\": false}");
    assert!(matches!(d, InboundDecision::Relay { .. }));
    let d = state.handle_inbound(b"{\"note\": \"hi\", \"mark\": null, \"finish\": true}");
    assert!(matches!(d, InboundDecision::FinishAck));
    // On a repeated key the last value wins.
    let d = state.handle_inbound(b"{\"finish\": true, \"finish\": false, \"payload\": \"AA\"}");
    assert!(matches!(d, InboundDecision::Relay { .. }));
}

#[test]
fn envelope_grammar_rejects_nested_values() {
    // Nested objects and arrays lie outside the accepted grammar: dropped.
    let mut state = TaskState::new();
    let d = state.handle_inbound(b"{\"extra\": {\"a\": 1}, \"finish\": true}");
    assert!(matches!(d, InboundDecision::Drop));
}

#[test]
fn parse_envelope_fields() {
    let env = parse_envelope(b"{\"finish\": false, \"payload\": \"0102\"}").unwrap();
    assert_eq!(env.finish, Some(false));
    assert_eq!(env.payload.unwrap(), b"0102".to_vec());
    let env = parse_envelope(b"{}").unwrap();
    assert_eq!(env.finish, None);
    assert!(env.payload.is_none());
    assert!(parse_envelope(b"{\"finish\": maybe}").is_none());
}

#[test]
fn response_topic_replaces_request() {
    assert_eq!(
        response_topic(b"card/123/request"),
        b"card/123/response".to_vec()
    );
    assert_eq!(
        response_topic(b"request/request"),
        b"response/response".to_vec()
    );
    assert_eq!(response_topic(b"requestrequest"), b"responseresponse".to_vec());
    assert_eq!(response_topic(b"card/123/reply"), b"card/123/reply".to_vec());
    assert_eq!(response_topic(b""), b"".to_vec());
}

#[test]
fn online_event_emitted_once_per_connectivity_loss() {
    let mut state = TaskState::new();
    assert!(state.on_poll_ok());
    assert!(!state.on_poll_ok());
    assert!(state.is_online);
    state.on_poll_err();
    assert!(!state.is_online);
    assert!(!state.was_online);
    assert!(state.on_poll_ok());
    assert!(!state.on_poll_ok());
}

#[test]
fn json_safety_checks() {
    assert!(is_json_safe("9000"));
    assert!(is_json_safe(""));
    assert!(!is_json_safe("a\"b"));
    assert!(!is_json_safe("a\\b"));
    assert!(!is_json_safe("a\nb"));
}

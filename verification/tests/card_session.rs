use tacho_bridge::atr::Protocol;
use tacho_bridge::card::{
    identity_read_apdu, identity_select_apdu, response_encode, status_word_ok, ManagedCard,
    SendAction, SendApduPlan,
};
use tacho_bridge::envelope::{is_json_safe, process_rapdu_mqtt_hex};

#[test]
fn response_encoding_is_lower_case_hex() {
    assert_eq!(response_encode(&[0x90, 0x00]), "9000");
    assert_eq!(response_encode(&[0x3B, 0x9F, 0xAB]), "3b9fab");
    assert_eq!(response_encode(&[]), "");
    // An encoded response always fits a reply envelope unescaped.
    let encoded = response_encode(&[0x61, 0x10]);
    assert!(is_json_safe(&encoded));
    assert_eq!(process_rapdu_mqtt_hex(&encoded), "{\"payload\":\"6110\"}");
}

#[test]
fn send_apdu_first_try_succeeds() {
    let mut plan = SendApduPlan::new();
    assert_eq!(plan.next_action(), SendAction::Transmit);
    plan.on_transmit_result(Some(String::from("9000")));
    assert_eq!(plan.next_action(), SendAction::Finish);
    assert_eq!(plan.recreate_count(), 0);
    assert_eq!(plan.take_response(), "9000");
}

#[test]
fn send_apdu_always_failing_returns_sentinel_after_one_recreate() {
    let mut plan = SendApduPlan::new();
    assert_eq!(plan.next_action(), SendAction::Transmit);
    plan.on_transmit_result(None);
    assert_eq!(plan.next_action(), SendAction::Recreate);
    plan.on_recreate_result(true);
    assert_eq!(plan.next_action(), SendAction::Transmit);
    plan.on_transmit_result(None);
    assert_eq!(plan.next_action(), SendAction::Finish);
    assert_eq!(plan.recreate_count(), 1);
    assert_eq!(plan.take_response(), "6F00");
}

#[test]
fn send_apdu_recreate_failure_returns_sentinel() {
    let mut plan = SendApduPlan::new();
    plan.on_transmit_result(None);
    plan.on_recreate_result(false);
    assert_eq!(plan.next_action(), SendAction::Finish);
    assert_eq!(plan.recreate_count(), 1);
    assert_eq!(plan.take_response(), "6F00");
}

#[test]
fn send_apdu_retry_succeeds_after_recreate() {
    let mut plan = SendApduPlan::new();
    plan.on_transmit_result(None);
    plan.on_recreate_result(true);
    plan.on_transmit_result(Some(String::from("61104F00")));
    assert_eq!(plan.recreate_count(), 1);
    assert_eq!(plan.take_response(), "61104F00");
}

#[test]
fn identity_read_happens_at_most_once() {
    let mut card = ManagedCard::new(String::from("Reader A"), Protocol::T0);
    assert!(card.needs_identity_read());
    assert!(card.cached_identity().is_none());
    let iccid = card.complete_identity_read("3b9f11229000").unwrap();
    assert_eq!(iccid, "3B9F1122");
    // However often the identity is asked for, no further read is needed.
    assert!(!card.needs_identity_read());
    assert!(!card.needs_identity_read());
    assert_eq!(card.cached_identity().unwrap(), "3B9F1122");
    assert_eq!(card.cached_identity().unwrap(), "3B9F1122");
}

#[test]
fn identity_without_status_word_is_taken_whole() {
    let mut card = ManagedCard::new(String::from("Reader A"), Protocol::T1);
    assert_eq!(card.complete_identity_read("aabb").unwrap(), "AABB");
}

#[test]
fn identity_bad_hex_is_rejected_and_not_cached() {
    let mut card = ManagedCard::new(String::from("Reader A"), Protocol::T0);
    assert!(card.complete_identity_read("zz9000").is_err());
    assert!(card.needs_identity_read());
}

#[test]
fn status_word_checks() {
    assert!(status_word_ok("9000"));
    assert!(status_word_ok("00A49000"));
    assert!(!status_word_ok("6F00"));
    assert!(!status_word_ok("900"));
    assert!(!status_word_ok(""));
}

#[test]
fn identity_apdu_sequence() {
    assert_eq!(identity_select_apdu(), "00A4020C020002");
    assert_eq!(identity_read_apdu(), "00B0000108");
}

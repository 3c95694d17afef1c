use tacho_bridge::atr::{parse_atr_and_get_protocol, Protocol};
use tacho_bridge::card::{apdu_decode, CardError};

#[test]
fn protocol_from_td2_t1() {
    // TS=3B, T0=80 (Y1=8: TD1 follows), TD1=80 (Y2=8: TD2 follows), TD2=01.
    assert_eq!(parse_atr_and_get_protocol("3B808001"), Protocol::T1);
}

#[test]
fn protocol_from_td2_t0() {
    assert_eq!(parse_atr_and_get_protocol("3B808000"), Protocol::T0);
}

#[test]
fn protocol_td2_unrecognised_falls_back() {
    // TD2 low nibble 0xF is neither 0 nor 1: the default protocol.
    assert_eq!(parse_atr_and_get_protocol("3B80800F"), Protocol::T0);
}

#[test]
fn protocol_from_td1_when_no_td2() {
    // TD1=01 announces no TD2; its low nibble decides.
    assert_eq!(parse_atr_and_get_protocol("3B8001"), Protocol::T1);
}

#[test]
fn protocol_with_ta1_tb1_skipped() {
    // T0=B0: Y1=B (TA1, TB1, TD1). TA1=11, TB1=22, TD1 at index 4 = 01.
    assert_eq!(parse_atr_and_get_protocol("3BB0112201"), Protocol::T1);
}

#[test]
fn protocol_default_without_interface_bytes() {
    assert_eq!(parse_atr_and_get_protocol("3B00"), Protocol::T0);
}

#[test]
fn protocol_lower_case_hex_accepted() {
    assert_eq!(parse_atr_and_get_protocol("3b808001"), Protocol::T1);
}

#[test]
fn malformed_hex_gives_default() {
    assert_eq!(parse_atr_and_get_protocol("xyz!"), Protocol::T0);
}

#[test]
fn odd_length_hex_gives_default() {
    assert_eq!(parse_atr_and_get_protocol("3B8"), Protocol::T0);
}

#[test]
fn empty_and_short_answers_give_default() {
    assert_eq!(parse_atr_and_get_protocol(""), Protocol::T0);
    assert_eq!(parse_atr_and_get_protocol("3B"), Protocol::T0);
}

#[test]
fn apdu_decode_exact_bytes() {
    assert_eq!(
        apdu_decode("00A4020C020002").unwrap(),
        vec![0x00, 0xA4, 0x02, 0x0C, 0x02, 0x00, 0x02]
    );
    assert_eq!(apdu_decode("3b9f").unwrap(), vec![0x3B, 0x9F]);
}

#[test]
fn apdu_decode_rejects_bad_hex() {
    assert_eq!(apdu_decode("0G").unwrap_err(), CardError::Decode);
    assert_eq!(apdu_decode("123").unwrap_err(), CardError::Decode);
}

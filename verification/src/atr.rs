//! Protocol classification from a card's reset answer (ATR).
//!
//! The ATR arrives as a hex string.  Its interface bytes are walked far
//! enough to locate TD1 and, when present, TD2; the transmission protocol is
//! the low nibble of TD2 if present, else of TD1 if present, else the
//! default.  Only protocols 0 and 1 are recognised; anything else falls back
//! to the default.  Malformed hex and too-short answers also classify as the
//! default, never as an error.

use vstd::prelude::*;

use crate::hexutil;
use crate::hexutil::{bytes_of_hex, valid_hex};
use vstd::string::StringSliceAdditionalSpecFns;

verus! {

/// Card transmission protocol negotiated from the reset answer.
#[derive(Clone, Copy, PartialEq, Eq, Structural, Debug)]
pub enum Protocol {
    T0,
    T1,
}

/// Protocol encoded by the low nibble of an interface byte: only values
/// 0 and 1 are recognised, anything else falls back to the default.
pub open spec fn protocol_of_nibble(n: u8) -> Protocol {
    if n == 1 {
        Protocol::T1
    } else {
        Protocol::T0
    }
}

/// High nibble of the format byte T0, gating which of TA1..TD1 follow.
pub open spec fn atr_y1(b: Seq<u8>) -> int {
    b[1] as int / 16
}

/// Index of TD1: past TS, T0 and whichever of TA1, TB1, TC1 are announced.
pub open spec fn atr_td1_index(b: Seq<u8>) -> int {
    2 + atr_y1(b) % 2 + (atr_y1(b) / 2) % 2 + (atr_y1(b) / 4) % 2
}

/// TD1 is announced by Y1 and actually present in the answer.
pub open spec fn atr_has_td1(b: Seq<u8>) -> bool {
    b.len() >= 2 && (atr_y1(b) / 8) % 2 == 1 && atr_td1_index(b) < b.len()
}

/// High nibble of TD1, gating which of TA2..TD2 follow.
pub open spec fn atr_y2(b: Seq<u8>) -> int {
    b[atr_td1_index(b)] as int / 16
}

/// Index of TD2: past TD1 and whichever of TA2, TB2, TC2 are announced.
pub open spec fn atr_td2_index(b: Seq<u8>) -> int {
    atr_td1_index(b) + 1 + atr_y2(b) % 2 + (atr_y2(b) / 2) % 2 + (atr_y2(b) / 4) % 2
}

/// TD2 is announced by TD1 and actually present in the answer.
pub open spec fn atr_has_td2(b: Seq<u8>) -> bool {
    atr_has_td1(b) && (atr_y2(b) / 8) % 2 == 1 && atr_td2_index(b) < b.len()
}

/// Protocol encoded by a decoded reset answer: the low nibble of TD2 if
/// present, else of TD1 if present, else the default.
pub open spec fn atr_protocol(b: Seq<u8>) -> Protocol {
    if atr_has_td2(b) {
        protocol_of_nibble((b[atr_td2_index(b)] as int % 16) as u8)
    } else if atr_has_td1(b) {
        protocol_of_nibble((b[atr_td1_index(b)] as int % 16) as u8)
    } else {
        Protocol::T0
    }
}

/// Protocol classified from the hex text of a reset answer: the default on
/// anything that does not decode as hex, otherwise decided by the decoded
/// interface bytes.
pub open spec fn classified_protocol(s: Seq<u8>) -> Protocol {
    if valid_hex(s) {
        atr_protocol(bytes_of_hex(s))
    } else {
        Protocol::T0
    }
}

/// Recognised protocol values for one nibble.
fn nibble_protocol(n: u8) -> (r: Protocol)
    ensures
        r == protocol_of_nibble(n),
{
    if n == 1 {
        Protocol::T1
    } else {
        Protocol::T0
    }
}

/// Parses the hex text of a reset answer and extracts the transmission
/// protocol.  Fails soft: malformed hex and too-short answers give the
/// default protocol.
pub fn parse_atr_and_get_protocol(atr: &str) -> (r: Protocol)
    ensures
        r == classified_protocol(atr.spec_bytes()),
{
    let bytes = match hexutil::hex_decode(atr.as_bytes()) {
        Ok(b) => b,
        Err(_) => {
            return Protocol::T0;
        },
    };
    if bytes.len() < 2 {
        return Protocol::T0;
    }
    let y1: u8 = bytes[1] / 16;
    let mut index: usize = 2;
    if y1 % 2 == 1 {
        index += 1;  // TA1
    }
    if (y1 / 2) % 2 == 1 {
        index += 1;  // TB1
    }
    if (y1 / 4) % 2 == 1 {
        index += 1;  // TC1
    }
    assert(index == atr_td1_index(bytes@));
    if (y1 / 8) % 2 == 1 && index < bytes.len() {
        let td1: u8 = bytes[index];
        let y2: u8 = td1 / 16;
        let mut index2: usize = index + 1;
        if y2 % 2 == 1 {
            index2 += 1;  // TA2
        }
        if (y2 / 2) % 2 == 1 {
            index2 += 1;  // TB2
        }
        if (y2 / 4) % 2 == 1 {
            index2 += 1;  // TC2
        }
        assert(index2 == atr_td2_index(bytes@));
        if (y2 / 8) % 2 == 1 && index2 < bytes.len() {
            nibble_protocol(bytes[index2] % 16)
        } else {
            nibble_protocol(td1 % 16)
        }
    } else {
        Protocol::T0
    }
}

/// For every reset answer in which a TD2 interface byte is present, the
/// classified protocol is decided by TD2's low nibble alone: value 1 gives
/// T1 and every other value gives the default T0.
pub proof fn lemma_protocol_from_td2(s: Seq<u8>)
    requires
        valid_hex(s),
        atr_has_td2(bytes_of_hex(s)),
    ensures
        classified_protocol(s) == protocol_of_nibble(
            (bytes_of_hex(s)[atr_td2_index(bytes_of_hex(s))] as int % 16) as u8,
        ),
{
}

/// Malformed hex input, odd-length hex input included, classifies as the
/// default protocol rather than failing the caller.
pub proof fn lemma_malformed_atr_default(s: Seq<u8>)
    requires
        !valid_hex(s),
    ensures
        classified_protocol(s) == Protocol::T0,
{
}

} // verus!

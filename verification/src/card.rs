//! Card session model: identity caching, APDU hex handling, and the
//! transmit-retry discipline.
//!
//! A session owns one hardware card connection.  The hardware calls
//! themselves happen at the caller's edge; this module holds the decisions:
//! what a command or response hex means, when the identity-read sequence
//! must be issued, and how a failed transmit is retried (recreate the handle
//! once, retry once, then fall back to a sentinel failure response).

use vstd::prelude::*;
use vstd::string::StringSliceAdditionalSpecFns;
use vstd::string::StringExecFns;

use crate::atr::Protocol;
use crate::hexutil;
use crate::hexutil::{bytes_of_hex, chars_of_ascii, hex_lower_bytes, hex_upper_bytes, upper_hex_digit, valid_hex};

verus! {

/// Failure of the card session's own computing: malformed hex in an APDU
/// or identity payload.  Hardware and transport failures are the caller's
/// domain and never take this shape.
#[derive(Clone, Copy, PartialEq, Eq, Structural, Debug)]
pub enum CardError {
    Decode,
}

/// Decodes the hex text of a command APDU into the bytes to transmit: the
/// compute half of a transmit, done before the hardware call.
pub fn apdu_decode(apdu_hex: &str) -> (r: Result<Vec<u8>, CardError>)
    ensures
        r is Ok <==> valid_hex(apdu_hex.spec_bytes()),
        r matches Ok(b) ==> b@ == bytes_of_hex(apdu_hex.spec_bytes()),
        r is Err ==> r == Err::<Vec<u8>, CardError>(CardError::Decode),
{
    match hexutil::hex_decode(apdu_hex.as_bytes()) {
        Ok(b) => Ok(b),
        Err(_) => Err(CardError::Decode),
    }
}

/// Encodes a transmit response as lower-case hex text: the compute half of
/// a transmit, done after the hardware call.  The reset answer handed to
/// the messaging task is encoded the same way.
pub fn response_encode(rapdu: &[u8]) -> (r: String)
    ensures
        r@ == chars_of_ascii(hex_lower_bytes(rapdu@)),
{
    hexutil::hex_encode(rapdu)
}

/// The ASCII bytes of the success status word 9000.
pub open spec fn status_ok_bytes() -> Seq<u8> {
    seq![57u8, 48u8, 48u8, 48u8]  // "9000"
}

/// The response hex ends with the success status word.
pub open spec fn response_ends_ok(s: Seq<u8>) -> bool {
    s.len() >= 4 && s.subrange(s.len() - 4, s.len() as int) == status_ok_bytes()
}

/// True when a response hex ends with the success status word 9000.  A
/// select answer without it is only warned about, never an error.
pub fn status_word_ok(response: &str) -> (r: bool)
    ensures
        r == response_ends_ok(response.spec_bytes()),
{
    let bytes = response.as_bytes();
    let n = bytes.len();
    if n >= 4 && bytes[n - 4] == 57 && bytes[n - 3] == 48 && bytes[n - 2] == 48 && bytes[n - 1]
        == 48 {
        assert(bytes@.subrange(n - 4, n as int) =~= status_ok_bytes());
        true
    } else {
        if n >= 4 {
            assert(bytes@.subrange(n - 4, n as int) != status_ok_bytes()) by {
                if bytes@.subrange(n - 4, n as int) == status_ok_bytes() {
                    assert(bytes@.subrange(n - 4, n as int)[0] == 57u8);
                    assert(bytes@.subrange(n - 4, n as int)[1] == 48u8);
                    assert(bytes@.subrange(n - 4, n as int)[2] == 48u8);
                    assert(bytes@.subrange(n - 4, n as int)[3] == 48u8);
                }
            }
        }
        false
    }
}

/// A trailing success status word is stripped off the identity read
/// response; the rest is the identity, hex-encoded.
pub open spec fn strip_success_suffix(s: Seq<u8>) -> Seq<u8> {
    if response_ends_ok(s) {
        s.subrange(0, s.len() - 4)
    } else {
        s
    }
}

/// The identity carried by an identity-read response: the response minus a
/// trailing success status word, hex-decoded, re-encoded upper-case; or
/// nothing when what remains is not valid hex.
pub open spec fn identity_of_response(s: Seq<u8>) -> Option<Seq<char>> {
    let data = strip_success_suffix(s);
    if valid_hex(data) {
        Some(chars_of_ascii(hex_upper_bytes(bytes_of_hex(data))))
    } else {
        None
    }
}

/// Upper-case hex encoding of a byte vector, as ASCII bytes.
fn hex_upper_vec(data: &Vec<u8>) -> (r: Vec<u8>)
    ensures
        r@ == hex_upper_bytes(data@),
{
    let mut r: Vec<u8> = Vec::new();
    let mut i: usize = 0;
    while i < data.len()
        invariant
            i <= data@.len(),
            r@.len() == 2 * i,
            forall|k: int| 0 <= k < r@.len() ==> r@[k] == hex_upper_bytes(data@)[k],
        decreases data@.len() - i,
    {
        let b = data[i];
        let hi = b / 16;
        let lo = b % 16;
        r.push(if hi < 10 { 48 + hi } else { 55 + hi });
        r.push(if lo < 10 { 48 + lo } else { 55 + lo });
        assert(r@[2 * i as int] == upper_hex_digit(data@[i as int] / 16));
        assert(r@[2 * i as int + 1] == upper_hex_digit(data@[i as int] % 16));
        i += 1;
    }
    assert(r@ =~= hex_upper_bytes(data@));
    r
}

/// One logical card session: the reader it sits in, the negotiated protocol,
/// and the lazily read card identity.  The hardware handle it stands for may
/// be torn down and recreated any number of times without touching this
/// state.
pub struct ManagedCard {
    pub reader_name: String,
    pub protocol: Protocol,
    pub iccid: Option<String>,
}

impl ManagedCard {
    /// The cached card identity, read at most once per session.
    pub open spec fn identity(&self) -> Option<Seq<char>> {
        match self.iccid {
            Some(ref s) => Some(s@),
            None => None,
        }
    }

    /// The identity-read APDU sequence must be issued: nothing is cached yet.
    pub open spec fn identity_read_needed(&self) -> bool {
        self.identity() is None
    }

    /// A fresh session for one reader: no identity read yet.
    pub fn new(reader_name: String, protocol: Protocol) -> (r: Self)
        ensures
            r.reader_name == reader_name,
            r.protocol == protocol,
            r.identity() is None,
    {
        ManagedCard { reader_name, protocol, iccid: None }
    }

    /// The cached identity, if the read already happened.
    pub fn cached_identity(&self) -> (r: Option<String>)
        ensures
            match r {
                Some(i) => self.identity() == Some(i@),
                None => self.identity() is None,
            },
    {
        match &self.iccid {
            Some(i) => Some(i.clone()),
            None => None,
        }
    }

    /// The identity-read APDU sequence must be issued for this session.
    pub fn needs_identity_read(&self) -> (r: bool)
        ensures
            r == self.identity_read_needed(),
    {
        match &self.iccid {
            Some(_) => false,
            None => true,
        }
    }

    /// Digests the identity-read response and caches the identity for the
    /// life of the session: a trailing success status word is stripped, the
    /// rest must be valid hex and is re-encoded upper-case.
    pub fn complete_identity_read(&mut self, read_response: &str) -> (r: Result<String, CardError>)
        requires
            old(self).identity() is None,
        ensures
            final(self).reader_name == old(self).reader_name,
            final(self).protocol == old(self).protocol,
            r is Ok <==> identity_of_response(read_response.spec_bytes()) is Some,
            r matches Ok(i) ==> Some(i@) == identity_of_response(read_response.spec_bytes())
                && final(self).identity() == Some(i@),
            r is Err ==> final(self).identity() is None && r == Err::<String, CardError>(
                CardError::Decode,
            ),
    {
        let bytes = read_response.as_bytes();
        let n = bytes.len();
        let ends_ok = status_word_ok(read_response);
        let data: &[u8] = if ends_ok {
            &bytes[0..n - 4]
        } else {
            bytes
        };
        proof {
            assert(data@ =~= strip_success_suffix(read_response.spec_bytes()));
        }
        let decoded = match hexutil::hex_decode(data) {
            Ok(b) => b,
            Err(_) => {
                return Err(CardError::Decode);
            },
        };
        let upper = hex_upper_vec(&decoded);
        assert(forall|k: int| 0 <= k < upper@.len() ==> upper@[k] < 0x80) by {
            assert(forall|k: int|
                0 <= k < hex_upper_bytes(decoded@).len() ==> hex_upper_bytes(decoded@)[k] < 0x80);
        }
        let iccid = hexutil::ascii_to_string(upper);
        self.iccid = Some(iccid.clone());
        Ok(iccid)
    }
}

/// Identity law: the identity-read APDU sequence is issued at most once per
/// session.  Once an identity is cached, the session never needs another
/// read, however often the identity is asked for; no session operation
/// clears the cache.
pub proof fn lemma_identity_read_at_most_once(c: ManagedCard)
    requires
        c.identity() is Some,
    ensures
        !c.identity_read_needed(),
{
}

/// Hex text of the SELECT command that picks the identity file off the card.
pub fn identity_select_apdu() -> (r: String)
    ensures
        r@ == "00A4020C020002"@,
{
    String::from_str("00A4020C020002")
}

/// Hex text of the READ BINARY command that reads the identity bytes.
pub fn identity_read_apdu() -> (r: String)
    ensures
        r@ == "00B0000108"@,
{
    String::from_str("00B0000108")
}

/// The sentinel failure response: the generic-failure status word, returned
/// when a command cannot be answered even after recreating the handle.  The
/// messaging protocol requires some response to every request.
pub open spec fn sentinel_response() -> Seq<char> {
    "6F00"@
}

/// Phase of one send-APDU exchange.
#[derive(Clone, Copy, PartialEq, Eq, Structural, Debug)]
pub enum SendPhase {
    /// The first transmit of the command is due.
    FirstTry,
    /// The first transmit failed; the handle must be recreated.
    RecreatePending,
    /// The handle was recreated; the one retry transmit is due.
    SecondTry,
    /// The exchange is over and a response is available.
    Finished,
}

/// Mathematical state of one send-APDU exchange.
pub ghost struct SendPlanV {
    pub phase: SendPhase,
    pub response: Option<Seq<char>>,
    pub recreates: int,
}

/// What feeding a transmit outcome to the plan does: a response finishes the
/// exchange with it; a failure asks for a recreate after the first try, and
/// finishes with the sentinel after the retry.
pub open spec fn spec_on_transmit(m: SendPlanV, response: Option<Seq<char>>) -> SendPlanV {
    match response {
        Some(resp) => SendPlanV { phase: SendPhase::Finished, response: Some(resp), recreates: m.recreates },
        None => {
            if m.phase == SendPhase::FirstTry {
                SendPlanV { phase: SendPhase::RecreatePending, response: None, recreates: m.recreates }
            } else {
                SendPlanV {
                    phase: SendPhase::Finished,
                    response: Some(sentinel_response()),
                    recreates: m.recreates,
                }
            }
        },
    }
}

/// What feeding the recreate outcome to the plan does: success allows the
/// one retry, failure finishes with the sentinel.  Either way the recreate
/// is counted.
pub open spec fn spec_on_recreate(m: SendPlanV, ok: bool) -> SendPlanV {
    if ok {
        SendPlanV { phase: SendPhase::SecondTry, response: None, recreates: m.recreates + 1 }
    } else {
        SendPlanV {
            phase: SendPhase::Finished,
            response: Some(sentinel_response()),
            recreates: m.recreates + 1,
        }
    }
}

/// The mathematical value of an optional response string.
pub open spec fn response_view(r: Option<String>) -> Option<Seq<char>> {
    match r {
        Some(ref s) => Some(s@),
        None => None,
    }
}

/// What the driver of a send-APDU exchange must do next.
#[derive(Clone, Copy, PartialEq, Eq, Structural, Debug)]
pub enum SendAction {
    /// Transmit the command and report the outcome.
    Transmit,
    /// Recreate the hardware handle and report whether that worked.
    Recreate,
    /// Take the response; the exchange is over.
    Finish,
}

/// One send-APDU exchange: transmit, recreate once on failure, retry once,
/// and fall back to the sentinel failure response — so the exchange always
/// produces a response and performs at most one recreate-and-retry cycle.
pub struct SendApduPlan {
    phase: SendPhase,
    response: Option<String>,
    recreates: u32,
}

impl View for SendApduPlan {
    type V = SendPlanV;

    closed spec fn view(&self) -> SendPlanV {
        SendPlanV {
            phase: self.phase,
            response: response_view(self.response),
            recreates: self.recreates as int,
        }
    }
}

impl SendApduPlan {
    /// A fresh exchange: the first transmit is due.
    pub fn new() -> (r: Self)
        ensures
            r@ == (SendPlanV { phase: SendPhase::FirstTry, response: None, recreates: 0 }),
    {
        SendApduPlan { phase: SendPhase::FirstTry, response: None, recreates: 0 }
    }

    /// What the driver must do next in this phase.
    pub fn next_action(&self) -> (a: SendAction)
        ensures
            a == SendAction::Transmit <==> (self@.phase == SendPhase::FirstTry || self@.phase
                == SendPhase::SecondTry),
            a == SendAction::Recreate <==> self@.phase == SendPhase::RecreatePending,
            a == SendAction::Finish <==> self@.phase == SendPhase::Finished,
    {
        match self.phase {
            SendPhase::FirstTry => SendAction::Transmit,
            SendPhase::SecondTry => SendAction::Transmit,
            SendPhase::RecreatePending => SendAction::Recreate,
            SendPhase::Finished => SendAction::Finish,
        }
    }

    /// Feeds the outcome of one transmit: the response hex, or nothing when
    /// the transmit failed.
    pub fn on_transmit_result(&mut self, response: Option<String>)
        requires
            old(self)@.phase == SendPhase::FirstTry || old(self)@.phase == SendPhase::SecondTry,
        ensures
            final(self)@ == spec_on_transmit(old(self)@, response_view(response)),
    {
        match response {
            Some(resp) => {
                self.phase = SendPhase::Finished;
                self.response = Some(resp);
            },
            None => {
                if matches!(self.phase, SendPhase::FirstTry) {
                    self.phase = SendPhase::RecreatePending;
                    self.response = None;
                } else {
                    self.phase = SendPhase::Finished;
                    self.response = Some(String::from_str("6F00"));
                }
            },
        }
    }

    /// Feeds the outcome of the recreate attempted after a failed first
    /// transmit.
    pub fn on_recreate_result(&mut self, ok: bool)
        requires
            old(self)@.phase == SendPhase::RecreatePending,
            old(self)@.recreates < 0x8000_0000,
        ensures
            final(self)@ == spec_on_recreate(old(self)@, ok),
    {
        self.recreates = self.recreates + 1;
        if ok {
            self.phase = SendPhase::SecondTry;
            self.response = None;
        } else {
            self.phase = SendPhase::Finished;
            self.response = Some(String::from_str("6F00"));
        }
    }

    /// How many times the exchange recreated the hardware handle.
    pub fn recreate_count(&self) -> (r: u32)
        ensures
            r as int == self@.recreates,
    {
        self.recreates
    }

    /// The response of a finished exchange.
    pub fn take_response(self) -> (r: String)
        requires
            self@.response is Some,
        ensures
            Some(r@) == self@.response,
    {
        match self.response {
            Some(resp) => resp,
            None => {
                proof {
                    assert(false);
                }
                String::new()
            },
        }
    }
}

/// Retry law: when every transmit of the exchange fails, the exchange
/// finishes with the sentinel failure response after exactly one
/// recreate-and-retry cycle, never more.
pub proof fn lemma_send_apdu_always_failing(recreate_ok: bool)
    ensures
        ({
            let started = SendPlanV { phase: SendPhase::FirstTry, response: None, recreates: 0 };
            let first_failed = spec_on_transmit(started, None);
            let recreated = spec_on_recreate(first_failed, recreate_ok);
            let done = if recreate_ok {
                spec_on_transmit(recreated, None)
            } else {
                recreated
            };
            done.phase == SendPhase::Finished && done.response == Some(sentinel_response())
                && done.recreates == 1
        }),
{
}

} // verus!

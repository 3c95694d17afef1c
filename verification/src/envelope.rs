//! Broker wire envelopes and the per-card messaging decisions.
//!
//! Inbound messages are JSON envelopes `{"finish": bool, "payload"?: "<hex>"}`,
//! outbound replies are `{"payload": "<hex>"}`.  The accepted inbound grammar
//! is pinned down by the specification functions here: one top-level object,
//! string keys, values that are booleans, strings of printable ASCII without
//! escapes, numbers (scanned loosely), or `null`; nested objects and arrays
//! are not accepted.  Hex payloads never need more.  Anything outside the
//! grammar, and any envelope missing a required field, is dropped without a
//! reply: the protocol has no error envelope.

use vstd::prelude::*;
use vstd::slice::slice_to_vec;
use vstd::string::StrSliceExecFns;
use vstd::string::StringExecFns;

verus! {

/// JSON whitespace.
pub open spec fn is_ws(b: u8) -> bool {
    b == 32 || b == 9 || b == 10 || b == 13
}

/// A byte allowed inside a string: printable ASCII, no quote, no backslash.
pub open spec fn plain_char(b: u8) -> bool {
    32 <= b && b <= 126 && b != 34 && b != 92
}

/// A byte that a number is scanned over: digits, signs, dot and exponent.
pub open spec fn number_char(b: u8) -> bool {
    (48 <= b && b <= 57) || b == 43 || b == 45 || b == 46 || b == 101 || b == 69
}

/// The bytes of the required key "finish".
pub open spec fn finish_key() -> Seq<u8> {
    seq![102u8, 105u8, 110u8, 105u8, 115u8, 104u8]  // "finish"
}

/// The bytes of the key "payload".
pub open spec fn payload_key() -> Seq<u8> {
    seq![112u8, 97u8, 121u8, 108u8, 111u8, 97u8, 100u8]  // "payload"
}

pub open spec fn true_bytes() -> Seq<u8> {
    seq![116u8, 114u8, 117u8, 101u8]  // "true"
}

pub open spec fn false_bytes() -> Seq<u8> {
    seq![102u8, 97u8, 108u8, 115u8, 101u8]  // "false"
}

pub open spec fn null_bytes() -> Seq<u8> {
    seq![110u8, 117u8, 108u8, 108u8]  // "null"
}

/// First position at or after `i` holding a non-whitespace byte (or the end).
pub open spec fn spec_skip_ws(s: Seq<u8>, i: int) -> int
    decreases s.len() - i,
{
    if i < 0 || i >= s.len() {
        i
    } else if is_ws(s[i]) {
        spec_skip_ws(s, i + 1)
    } else {
        i
    }
}

/// Position of the closing quote of string content starting at `i`, provided
/// everything up to it is a plain character.
pub open spec fn spec_scan_string(s: Seq<u8>, i: int) -> Option<int>
    decreases s.len() - i,
{
    if i < 0 || i >= s.len() {
        None
    } else if s[i] == 34 {
        Some(i)
    } else if plain_char(s[i]) {
        spec_scan_string(s, i + 1)
    } else {
        None
    }
}

/// A string token at `i`: its content bytes and the position just past the
/// closing quote.
pub open spec fn spec_parse_string(s: Seq<u8>, i: int) -> Option<(Seq<u8>, int)> {
    if 0 <= i < s.len() && s[i] == 34 {
        match spec_scan_string(s, i + 1) {
            Some(j) => Some((s.subrange(i + 1, j), j + 1)),
            None => None,
        }
    } else {
        None
    }
}

/// The word `w` stands at position `i`.
pub open spec fn spec_match_at(s: Seq<u8>, i: int, w: Seq<u8>) -> bool {
    0 <= i && i + w.len() <= s.len() && s.subrange(i, i + w.len()) == w
}

/// A boolean token at `i` and the position just past it.
pub open spec fn spec_parse_bool(s: Seq<u8>, i: int) -> Option<(bool, int)> {
    if spec_match_at(s, i, true_bytes()) {
        Some((true, i + 4))
    } else if spec_match_at(s, i, false_bytes()) {
        Some((false, i + 5))
    } else {
        None
    }
}

/// First position at or after `i` past any number bytes.
pub open spec fn spec_scan_number(s: Seq<u8>, i: int) -> int
    decreases s.len() - i,
{
    if i < 0 || i >= s.len() {
        i
    } else if number_char(s[i]) {
        spec_scan_number(s, i + 1)
    } else {
        i
    }
}

/// Position just past a skippable value at `i`: a string, a boolean, `null`,
/// or a (loosely scanned) number.
pub open spec fn spec_skip_value(s: Seq<u8>, i: int) -> Option<int> {
    if 0 <= i < s.len() && s[i] == 34 {
        match spec_parse_string(s, i) {
            Some((_, j)) => Some(j),
            None => None,
        }
    } else if spec_match_at(s, i, true_bytes()) {
        Some(i + 4)
    } else if spec_match_at(s, i, false_bytes()) {
        Some(i + 5)
    } else if spec_match_at(s, i, null_bytes()) {
        Some(i + 4)
    } else if 0 <= i < s.len() && number_char(s[i]) {
        Some(spec_scan_number(s, i))
    } else {
        None
    }
}

/// The fields of a parsed inbound envelope.
pub ghost struct EnvelopeV {
    pub finish: Option<bool>,
    pub payload: Option<Seq<u8>>,
}

/// Members of the envelope object from position `i` (just past `{` or a
/// comma) to the closing brace: `finish` takes a boolean, `payload` a
/// string, any other member is skipped; on a repeated key the last value
/// wins.  Yields the fields and the position just past the closing brace.
pub open spec fn spec_parse_members(s: Seq<u8>, i: int, acc: EnvelopeV) -> Option<(EnvelopeV, int)>
    decreases s.len() - i,
{
    let k = spec_skip_ws(s, i);
    match spec_parse_string(s, k) {
        None => None,
        Some((key, p1)) => {
            let p2 = spec_skip_ws(s, p1);
            if !(0 <= p2 < s.len() && s[p2] == 58) {  // ':'
                None
            } else {
                let p3 = spec_skip_ws(s, p2 + 1);
                let step: Option<(EnvelopeV, int)> = if key == finish_key() {
                    match spec_parse_bool(s, p3) {
                        Some((b, p4)) => Some(
                            (EnvelopeV { finish: Some(b), payload: acc.payload }, p4),
                        ),
                        None => None,
                    }
                } else if key == payload_key() {
                    match spec_parse_string(s, p3) {
                        Some((v, p4)) => Some(
                            (EnvelopeV { finish: acc.finish, payload: Some(v) }, p4),
                        ),
                        None => None,
                    }
                } else {
                    match spec_skip_value(s, p3) {
                        Some(p4) => Some((acc, p4)),
                        None => None,
                    }
                };
                match step {
                    None => None,
                    Some((acc2, p4)) => {
                        let p5 = spec_skip_ws(s, p4);
                        if 0 <= p5 < s.len() && s[p5] == 125 {  // '}'
                            Some((acc2, p5 + 1))
                        } else if 0 <= p5 < s.len() && s[p5] == 44 {  // ','
                            if i < p5 + 1 <= s.len() {
                                spec_parse_members(s, p5 + 1, acc2)
                            } else {
                                None
                            }
                        } else {
                            None
                        }
                    },
                }
            }
        },
    }
}

/// The whole inbound body as an envelope: whitespace, one object, whitespace,
/// the end; or nothing when the body lies outside the accepted grammar.
pub open spec fn spec_parse_envelope(s: Seq<u8>) -> Option<EnvelopeV> {
    let i = spec_skip_ws(s, 0);
    if !(0 <= i < s.len() && s[i] == 123) {  // '{'
        None
    } else {
        let j = spec_skip_ws(s, i + 1);
        let parsed: Option<(EnvelopeV, int)> = if 0 <= j < s.len() && s[j] == 125 {
            Some((EnvelopeV { finish: None, payload: None }, j + 1))
        } else {
            spec_parse_members(s, i + 1, EnvelopeV { finish: None, payload: None })
        };
        match parsed {
            None => None,
            Some((env, p)) => {
                if 0 <= p <= s.len() && spec_skip_ws(s, p) == s.len() {
                    Some(env)
                } else {
                    None
                }
            },
        }
    }
}

fn is_ws_byte(b: u8) -> (r: bool)
    ensures
        r == is_ws(b),
{
    b == 32 || b == 9 || b == 10 || b == 13
}

fn skip_ws(s: &[u8], i: usize) -> (r: usize)
    requires
        i <= s@.len(),
    ensures
        r as int == spec_skip_ws(s@, i as int),
        i <= r <= s@.len(),
    decreases s@.len() - i,
{
    if i < s.len() && is_ws_byte(s[i]) {
        skip_ws(s, i + 1)
    } else {
        i
    }
}

fn scan_string(s: &[u8], i: usize) -> (r: Option<usize>)
    requires
        i <= s@.len(),
    ensures
        match r {
            Some(j) => spec_scan_string(s@, i as int) == Some(j as int) && i <= j < s@.len(),
            None => spec_scan_string(s@, i as int) is None,
        },
    decreases s@.len() - i,
{
    if i >= s.len() {
        None
    } else if s[i] == 34 {
        Some(i)
    } else if 32 <= s[i] && s[i] <= 126 && s[i] != 92 {
        scan_string(s, i + 1)
    } else {
        None
    }
}

fn parse_string(s: &[u8], i: usize) -> (r: Option<(Vec<u8>, usize)>)
    requires
        i <= s@.len(),
    ensures
        match r {
            Some((v, j)) => spec_parse_string(s@, i as int) == Some((v@, j as int)) && i < j
                <= s@.len(),
            None => spec_parse_string(s@, i as int) is None,
        },
{
    if i < s.len() && s[i] == 34 {
        match scan_string(s, i + 1) {
            Some(j) => {
                let content = slice_to_vec(&s[i + 1..j]);
                Some((content, j + 1))
            },
            None => None,
        }
    } else {
        None
    }
}

fn match_lit(s: &[u8], i: usize, w: &[u8]) -> (r: bool)
    ensures
        r == spec_match_at(s@, i as int, w@),
{
    let n = s.len();
    if i > n || n - i < w.len() {
        return false;
    }
    let mut j: usize = 0;
    while j < w.len()
        invariant
            j <= w@.len(),
            i + w@.len() <= s@.len(),
            s@.len() <= usize::MAX,
            forall|k: int| 0 <= k < j ==> s@[i + k] == #[trigger] w@[k],
        decreases w@.len() - j,
    {
        if s[i + j] != w[j] {
            assert(s@.subrange(i as int, i + w@.len())[j as int] != w@[j as int]);
            return false;
        }
        j += 1;
    }
    assert(s@.subrange(i as int, i + w@.len()) =~= w@);
    true
}

fn scan_number(s: &[u8], i: usize) -> (r: usize)
    requires
        i <= s@.len(),
    ensures
        r as int == spec_scan_number(s@, i as int),
        i <= r <= s@.len(),
    decreases s@.len() - i,
{
    if i < s.len() && (48 <= s[i] && s[i] <= 57 || s[i] == 43 || s[i] == 45 || s[i] == 46 || s[i]
        == 101 || s[i] == 69) {
        scan_number(s, i + 1)
    } else {
        i
    }
}

/// The inbound envelope fields as parsed off the wire.
pub struct Envelope {
    pub finish: Option<bool>,
    pub payload: Option<Vec<u8>>,
}

impl View for Envelope {
    type V = EnvelopeV;

    open spec fn view(&self) -> EnvelopeV {
        EnvelopeV {
            finish: self.finish,
            payload: match self.payload {
                Some(ref v) => Some(v@),
                None => None,
            },
        }
    }
}

fn lit_true() -> (r: Vec<u8>)
    ensures
        r@ == true_bytes(),
{
    let r: Vec<u8> = vec![116u8, 114u8, 117u8, 101u8];
    proof {
        assert(r@ =~= true_bytes());
    }
    r
}

fn lit_false() -> (r: Vec<u8>)
    ensures
        r@ == false_bytes(),
{
    let r: Vec<u8> = vec![102u8, 97u8, 108u8, 115u8, 101u8];
    proof {
        assert(r@ =~= false_bytes());
    }
    r
}

fn lit_null() -> (r: Vec<u8>)
    ensures
        r@ == null_bytes(),
{
    let r: Vec<u8> = vec![110u8, 117u8, 108u8, 108u8];
    proof {
        assert(r@ =~= null_bytes());
    }
    r
}

fn parse_bool(s: &[u8], i: usize) -> (r: Option<(bool, usize)>)
    requires
        i <= s@.len(),
    ensures
        match r {
            Some((b, j)) => spec_parse_bool(s@, i as int) == Some((b, j as int)) && i < j
                <= s@.len(),
            None => spec_parse_bool(s@, i as int) is None,
        },
{
    let n = s.len();
    proof {
        assert(s@.len() == n <= usize::MAX);
    }
    let t = lit_true();
    let f = lit_false();
    if match_lit(s, i, t.as_slice()) {
        Some((true, i + 4))
    } else if match_lit(s, i, f.as_slice()) {
        Some((false, i + 5))
    } else {
        None
    }
}

fn skip_value(s: &[u8], i: usize) -> (r: Option<usize>)
    requires
        i <= s@.len(),
    ensures
        match r {
            Some(j) => spec_skip_value(s@, i as int) == Some(j as int) && i < j <= s@.len(),
            None => spec_skip_value(s@, i as int) is None,
        },
{
    let n = s.len();
    proof {
        assert(s@.len() == n <= usize::MAX);
    }
    let t = lit_true();
    let f = lit_false();
    let nl = lit_null();
    if i < s.len() && s[i] == 34 {
        match parse_string(s, i) {
            Some((_, j)) => Some(j),
            None => None,
        }
    } else if match_lit(s, i, t.as_slice()) {
        Some((i + 4))
    } else if match_lit(s, i, f.as_slice()) {
        Some((i + 5))
    } else if match_lit(s, i, nl.as_slice()) {
        Some((i + 4))
    } else if i < s.len() && (48 <= s[i] && s[i] <= 57 || s[i] == 43 || s[i] == 45 || s[i] == 46
        || s[i] == 101 || s[i] == 69) {
        let j = scan_number(s, i + 1);
        assert(spec_scan_number(s@, i as int) == spec_scan_number(s@, i + 1));
        Some(j)
    } else {
        None
    }
}

fn key_is(key: &Vec<u8>, lit: &Vec<u8>) -> (r: bool)
    ensures
        r == (key@ == lit@),
{
    if key.len() != lit.len() {
        return false;
    }
    let m = match_lit(key.as_slice(), 0, lit.as_slice());
    proof {
        if m {
            assert(key@.subrange(0, lit@.len() as int) =~= key@);
        } else {
            if key@ == lit@ {
                assert(key@.subrange(0, lit@.len() as int) =~= lit@);
                assert(spec_match_at(key@, 0, lit@));
            }
        }
    }
    m
}

fn lit_finish_key() -> (r: Vec<u8>)
    ensures
        r@ == finish_key(),
{
    let r: Vec<u8> = vec![102u8, 105u8, 110u8, 105u8, 115u8, 104u8];
    proof {
        assert(r@ =~= finish_key());
    }
    r
}

fn lit_payload_key() -> (r: Vec<u8>)
    ensures
        r@ == payload_key(),
{
    let r: Vec<u8> = vec![112u8, 97u8, 121u8, 108u8, 111u8, 97u8, 100u8];
    proof {
        assert(r@ =~= payload_key());
    }
    r
}

fn parse_members(s: &[u8], i: usize, acc: Envelope) -> (r: Option<(Envelope, usize)>)
    requires
        i <= s@.len(),
    ensures
        match r {
            Some((env, j)) => spec_parse_members(s@, i as int, acc@) == Some((env@, j as int))
                && j <= s@.len(),
            None => spec_parse_members(s@, i as int, acc@) is None,
        },
    decreases s@.len() - i,
{
    let k = skip_ws(s, i);
    let key_p1 = match parse_string(s, k) {
        Some(kp) => kp,
        None => {
            return None;
        },
    };
    let key = key_p1.0;
    let p1 = key_p1.1;
    let p2 = skip_ws(s, p1);
    if !(p2 < s.len() && s[p2] == 58) {
        return None;
    }
    let p3 = skip_ws(s, p2 + 1);
    let finish_lit = lit_finish_key();
    let payload_lit = lit_payload_key();
    let step: Option<(Envelope, usize)> = if key_is(&key, &finish_lit) {
        match parse_bool(s, p3) {
            Some((b, p4)) => Some((Envelope { finish: Some(b), payload: acc.payload }, p4)),
            None => None,
        }
    } else if key_is(&key, &payload_lit) {
        match parse_string(s, p3) {
            Some((v, p4)) => Some((Envelope { finish: acc.finish, payload: Some(v) }, p4)),
            None => None,
        }
    } else {
        match skip_value(s, p3) {
            Some(p4) => Some((acc, p4)),
            None => None,
        }
    };
    let step = match step {
        Some(st) => st,
        None => {
            return None;
        },
    };
    let acc2 = step.0;
    let p4 = step.1;
    let p5 = skip_ws(s, p4);
    if p5 < s.len() && s[p5] == 125 {
        Some((acc2, p5 + 1))
    } else if p5 < s.len() && s[p5] == 44 {
        assert(i < p5 + 1 <= s@.len());
        parse_members(s, p5 + 1, acc2)
    } else {
        None
    }
}

/// Parses one inbound body against the envelope grammar.  Anything outside
/// the grammar yields nothing and the message is dropped.
pub fn parse_envelope(body: &[u8]) -> (r: Option<Envelope>)
    ensures
        match r {
            Some(env) => spec_parse_envelope(body@) == Some(env@),
            None => spec_parse_envelope(body@) is None,
        },
{
    let i = skip_ws(body, 0);
    if !(i < body.len() && body[i] == 123) {
        return None;
    }
    let j = skip_ws(body, i + 1);
    let parsed: Option<(Envelope, usize)> = if j < body.len() && body[j] == 125 {
        Some((Envelope { finish: None, payload: None }, j + 1))
    } else {
        parse_members(body, i + 1, Envelope { finish: None, payload: None })
    };
    match parsed {
        None => None,
        Some((env, p)) => {
            if skip_ws(body, p) == body.len() {
                Some(env)
            } else {
                None
            }
        },
    }
}

/// Per-task connection flags: whether the broker connection is currently
/// live, whether the presence-online event was already emitted for it, and
/// whether an authentication exchange is in progress on the card.
pub struct TaskState {
    pub is_online: bool,
    pub was_online: bool,
    pub auth_in_progress: bool,
}

/// What one inbound broker message asks the messaging task to do.
pub enum InboundDecision {
    /// Malformed body or missing required field: drop the message, no reply.
    Drop,
    /// finish=true: the authentication is over; reconnect the session and
    /// reply with an empty payload.
    FinishAck,
    /// finish=false with an empty payload: reply with the raw reset-answer
    /// hex so the counterpart can restart identification; the session is
    /// reconnected first when an authentication was in progress, guarding
    /// against a card left mid-command.
    AtrReply { reset_first: bool },
    /// finish=false with a non-empty payload: relay the command to the card
    /// and reply with the response hex.
    Relay { apdu_hex: Vec<u8> },
}

/// Mathematical image of one inbound decision.
pub ghost enum InboundDecisionV {
    Drop,
    FinishAck,
    AtrReply { reset_first: bool },
    Relay { apdu_hex: Seq<u8> },
}

impl View for InboundDecision {
    type V = InboundDecisionV;

    open spec fn view(&self) -> InboundDecisionV {
        match self {
            InboundDecision::Drop => InboundDecisionV::Drop,
            InboundDecision::FinishAck => InboundDecisionV::FinishAck,
            InboundDecision::AtrReply { reset_first } => InboundDecisionV::AtrReply {
                reset_first: *reset_first,
            },
            InboundDecision::Relay { apdu_hex } => InboundDecisionV::Relay { apdu_hex: apdu_hex@ },
        }
    }
}

/// The decision for one parsed envelope, given whether an authentication
/// exchange was in progress.
pub open spec fn spec_inbound_decision(env: Option<EnvelopeV>, auth: bool) -> InboundDecisionV {
    match env {
        None => InboundDecisionV::Drop,
        Some(e) => match e.finish {
            None => InboundDecisionV::Drop,
            Some(true) => InboundDecisionV::FinishAck,
            Some(false) => match e.payload {
                None => InboundDecisionV::Drop,
                Some(p) => {
                    if p.len() == 0 {
                        InboundDecisionV::AtrReply { reset_first: auth }
                    } else {
                        InboundDecisionV::Relay { apdu_hex: p }
                    }
                },
            },
        },
    }
}

/// The authentication flag after one inbound message: cleared by a finish
/// envelope, set by a relayed command, untouched otherwise.
pub open spec fn spec_auth_after(env: Option<EnvelopeV>, auth: bool) -> bool {
    match env {
        None => auth,
        Some(e) => match e.finish {
            None => auth,
            Some(true) => false,
            Some(false) => match e.payload {
                None => auth,
                Some(p) => {
                    if p.len() == 0 {
                        auth
                    } else {
                        true
                    }
                },
            },
        },
    }
}

impl TaskState {
    /// A fresh task: offline, no event emitted, no authentication running.
    pub fn new() -> (r: Self)
        ensures
            !r.is_online,
            !r.was_online,
            !r.auth_in_progress,
    {
        TaskState { is_online: false, was_online: false, auth_in_progress: false }
    }

    /// On a successful event-loop poll the task is online.  The
    /// presence-online status event is emitted only on the transition from
    /// offline, guarded by the second flag so the very next poll does not
    /// emit it again.
    pub fn on_poll_ok(&mut self) -> (emit_online: bool)
        ensures
            final(self).is_online,
            final(self).was_online == (old(self).was_online || !old(self).is_online),
            final(self).auth_in_progress == old(self).auth_in_progress,
            emit_online == (!old(self).is_online && !old(self).was_online),
    {
        let mut emit = false;
        if !self.is_online {
            self.is_online = true;
            if !self.was_online {
                self.was_online = true;
                emit = true;
            }
        }
        emit
    }

    /// On an event-loop failure the task is offline and both online flags
    /// reset.  The caller emits the presence-offline event, classifies the
    /// transport error for its log, and sleeps the fixed retry interval —
    /// the sole backoff mechanism, applied uniformly.
    pub fn on_poll_err(&mut self)
        ensures
            !final(self).is_online,
            !final(self).was_online,
            final(self).auth_in_progress == old(self).auth_in_progress,
    {
        self.is_online = false;
        self.was_online = false;
    }

    /// Digests one inbound message body: parses the envelope against the
    /// wire grammar and decides the reply, updating the authentication flag.
    /// The online flags are governed by the poll outcome alone.
    pub fn handle_inbound(&mut self, body: &[u8]) -> (d: InboundDecision)
        ensures
            final(self).is_online == old(self).is_online,
            final(self).was_online == old(self).was_online,
            d@ == spec_inbound_decision(
                spec_parse_envelope(body@),
                old(self).auth_in_progress,
            ),
            final(self).auth_in_progress == spec_auth_after(
                spec_parse_envelope(body@),
                old(self).auth_in_progress,
            ),
    {
        match parse_envelope(body) {
            None => InboundDecision::Drop,
            Some(env) => match env.finish {
                None => InboundDecision::Drop,
                Some(true) => {
                    self.auth_in_progress = false;
                    InboundDecision::FinishAck
                },
                Some(false) => match env.payload {
                    None => InboundDecision::Drop,
                    Some(p) => {
                        if p.len() == 0 {
                            InboundDecision::AtrReply { reset_first: self.auth_in_progress }
                        } else {
                            self.auth_in_progress = true;
                            InboundDecision::Relay { apdu_hex: p }
                        }
                    },
                },
            },
        }
    }
}

/// A character that may stand unescaped inside a JSON string; every hex
/// digit qualifies.
pub open spec fn json_safe_char(c: char) -> bool {
    c != '"' && c != '\\' && (c as int) >= 32
}

/// Every character of the payload may stand unescaped in the reply.
pub open spec fn json_safe_chars(s: Seq<char>) -> bool {
    forall|i: int| 0 <= i < s.len() ==> json_safe_char(#[trigger] s[i])
}

/// True when every character of the text may stand unescaped inside a JSON
/// string.  Callers check this before wrapping a payload in a reply.
pub fn is_json_safe(s: &str) -> (r: bool)
    ensures
        r == json_safe_chars(s@),
{
    let n = s.unicode_len();
    let mut i: usize = 0;
    while i < n
        invariant
            i <= n,
            n == s@.len(),
            forall|k: int| 0 <= k < i ==> json_safe_char(#[trigger] s@[k]),
        decreases n - i,
    {
        let c = s.get_char(i);
        if c == '"' || c == '\\' || (c as u32) < 32 {
            return false;
        }
        i += 1;
    }
    true
}

/// The outbound envelope around one response payload.
pub open spec fn reply_json(payload: Seq<char>) -> Seq<char> {
    "{\"payload\":\""@ + payload + "\"}"@
}

/// Wraps a response hex in the outbound envelope `{"payload":"<hex>"}`.
/// Every reply published to the broker goes through this; an empty payload
/// acknowledges a finished authentication.
pub fn process_rapdu_mqtt_hex(rapdu_mqtt_hex: &str) -> (r: String)
    requires
        json_safe_chars(rapdu_mqtt_hex@),
    ensures
        r@ == reply_json(rapdu_mqtt_hex@),
{
    let mut r = String::from_str("{\"payload\":\"");
    r.append(rapdu_mqtt_hex);
    r.append("\"}");
    r
}

/// The bytes of the topic word "request".
pub open spec fn request_bytes() -> Seq<u8> {
    seq![114u8, 101u8, 113u8, 117u8, 101u8, 115u8, 116u8]  // "request"
}

/// The bytes of the topic word "response".
pub open spec fn response_bytes() -> Seq<u8> {
    seq![114u8, 101u8, 115u8, 112u8, 111u8, 110u8, 115u8, 101u8]  // "response"
}

/// The text from position `i` on with every occurrence of "request"
/// replaced by "response", scanned left to right.
pub open spec fn spec_replace_from(s: Seq<u8>, i: int) -> Seq<u8>
    decreases s.len() - i,
{
    if i < 0 || i >= s.len() {
        Seq::empty()
    } else if spec_match_at(s, i, request_bytes()) {
        response_bytes() + spec_replace_from(s, i + 7)
    } else {
        seq![s[i]] + spec_replace_from(s, i + 1)
    }
}

/// The reply topic of an inbound topic: request and response topics carry
/// the same card number and parcel identifier, so the reply topic is the
/// inbound topic with "request" replaced by "response".
pub open spec fn response_topic_of(s: Seq<u8>) -> Seq<u8> {
    spec_replace_from(s, 0)
}

/// Derives the reply topic from the topic an envelope arrived on.
pub fn response_topic(topic: &[u8]) -> (r: Vec<u8>)
    ensures
        r@ == response_topic_of(topic@),
{
    let req: Vec<u8> = vec![114u8, 101u8, 113u8, 117u8, 101u8, 115u8, 116u8];
    let resp: Vec<u8> = vec![114u8, 101u8, 115u8, 112u8, 111u8, 110u8, 115u8, 101u8];
    proof {
        assert(req@ =~= request_bytes());
        assert(resp@ =~= response_bytes());
    }
    let mut out: Vec<u8> = Vec::new();
    let mut i: usize = 0;
    while i < topic.len()
        invariant
            i <= topic@.len(),
            req@ == request_bytes(),
            resp@ == response_bytes(),
            response_topic_of(topic@) == out@ + spec_replace_from(topic@, i as int),
        decreases topic@.len() - i,
    {
        if match_lit(topic, i, req.as_slice()) {
            let ghost out_before = out@;
            crate::strutil::push_all(&mut out, &resp);
            proof {
                assert(spec_replace_from(topic@, i as int) == response_bytes()
                    + spec_replace_from(topic@, i + 7));
                assert(out_before + spec_replace_from(topic@, i as int) =~= out@
                    + spec_replace_from(topic@, i + 7));
            }
            i += 7;
        } else {
            let ghost out_before = out@;
            out.push(topic[i]);
            proof {
                assert(spec_replace_from(topic@, i as int) == seq![topic@[i as int]]
                    + spec_replace_from(topic@, i + 1));
                assert(out_before + spec_replace_from(topic@, i as int) =~= out@
                    + spec_replace_from(topic@, i + 1));
            }
            i += 1;
        }
    }
    proof {
        assert(spec_replace_from(topic@, i as int) == Seq::<u8>::empty());
        assert(out@ + Seq::<u8>::empty() =~= out@);
    }
    out
}

/// Wire law, reply safety: a lower-case hex encoding consists only of
/// characters that may stand unescaped inside a JSON string, so a reply
/// built around an encoded card response is always well-formed JSON.
pub proof fn lemma_hex_reply_safe(b: Seq<u8>)
    ensures
        json_safe_chars(crate::hexutil::chars_of_ascii(crate::hexutil::hex_lower_bytes(b))),
{
    let chars = crate::hexutil::chars_of_ascii(crate::hexutil::hex_lower_bytes(b));
    assert forall|i: int| 0 <= i < chars.len() implies json_safe_char(#[trigger] chars[i]) by {
        let digit = crate::hexutil::hex_lower_bytes(b)[i];
        assert((48 <= digit && digit <= 57) || (97 <= digit && digit <= 102));
        assert(chars[i] == digit as char);
    }
}

/// Wire law, finish envelopes: an envelope with finish=true always yields
/// the finish acknowledgement — session reconnect and an empty reply
/// payload — and clears the authentication flag.
pub proof fn lemma_finish_envelope(env: EnvelopeV, auth: bool)
    requires
        env.finish == Some(true),
    ensures
        spec_inbound_decision(Some(env), auth) == InboundDecisionV::FinishAck,
        spec_auth_after(Some(env), auth) == false,
{
}

/// Wire law, empty reply: the finish acknowledgement's outbound envelope is
/// exactly `{"payload":""}`.
pub proof fn lemma_finish_reply()
    ensures
        reply_json(Seq::<char>::empty()) == "{\"payload\":\"\"}"@,
{
    reveal_strlit("{\"payload\":\"");
    reveal_strlit("\"}");
    reveal_strlit("{\"payload\":\"\"}");
    assert(reply_json(Seq::<char>::empty()) =~= "{\"payload\":\"\"}"@);
}

/// Wire law, relayed commands: an envelope with finish=false and a
/// non-empty payload always relays exactly that payload to the card, and
/// the reply to the counterpart carries the card's response; the
/// authentication flag becomes set.
pub proof fn lemma_relay_envelope(env: EnvelopeV, p: Seq<u8>, auth: bool)
    requires
        env.finish == Some(false),
        env.payload == Some(p),
        p.len() > 0,
    ensures
        spec_inbound_decision(Some(env), auth) == (InboundDecisionV::Relay { apdu_hex: p }),
        spec_auth_after(Some(env), auth) == true,
{
}

/// Wire law, dropped messages: a body outside the grammar, an envelope
/// without the finish field, and a finish=false envelope without a payload
/// are dropped — no reply is sent and the authentication flag is untouched,
/// so the counterpart must time out and retry.
pub proof fn lemma_drop_envelope(env: Option<EnvelopeV>, auth: bool)
    requires
        env is None || (env matches Some(e) && (e.finish is None || (e.finish == Some(false)
            && e.payload is None))),
    ensures
        spec_inbound_decision(env, auth) == InboundDecisionV::Drop,
        spec_auth_after(env, auth) == auth,
{
}

} // verus!

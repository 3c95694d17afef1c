//! Reader presence tracking and monitor decisions.
//!
//! The monitor polls the hardware for reader/card state transitions.  The
//! state of a reader is modelled here as explicit flags rather than a
//! formatted bitmask string, and the presence registry is pure bookkeeping
//! over an ordered list of (reader, state, card number) entries: an
//! asymmetric add/remove rule set, because presence and absence are reported
//! through different state vocabularies by the hardware layer.

use vstd::prelude::*;
use vstd::string::StringSliceAdditionalSpecFns;

use crate::strutil::str_eq;

verus! {

/// Reader/card state flags observed in one poll cycle.
#[derive(Clone, Copy, PartialEq, Eq, Structural, Debug)]
pub struct CardState {
    /// The hardware flagged a transition in this poll cycle.
    pub changed: bool,
    /// A card is present in the reader.
    pub present: bool,
    /// The card is mid-transaction (in use by some connection).
    pub in_use: bool,
    /// The reader reports an empty slot.
    pub empty: bool,
    /// The reader's state is unknown to the hardware subsystem.
    pub unknown: bool,
    /// The hardware subsystem asked to ignore this reader.
    pub ignore: bool,
}

/// A reader whose state reads unknown or ignored has disappeared from the
/// hardware enumeration and its tracking entry is dropped.
pub fn reader_is_dead(state: &CardState) -> (r: bool)
    ensures
        r == (state.unknown || state.ignore),
{
    state.unknown || state.ignore
}

/// A session is created only for a card that is present, not mid-transaction,
/// and not already tracked for this reader.
pub fn should_create_session(state: &CardState, already_tracked: bool) -> (r: bool)
    ensures
        r == (state.present && !state.in_use && !already_tracked),
{
    state.present && !state.in_use && !already_tracked
}

/// Status events are suppressed while the card is mid-transaction, to avoid
/// the spurious duplicate event the hardware reports during an identity read.
pub fn should_emit_event(state: &CardState) -> (r: bool)
    ensures
        r == !state.in_use,
{
    !state.in_use
}

/// ASCII lower-casing of one byte; other bytes are left alone.
pub open spec fn ascii_lower(b: u8) -> u8 {
    if 65 <= b && b <= 90 {  // 'A' ..= 'Z'
        (b + 32) as u8
    } else {
        b
    }
}

/// The lower-cased text matches the pattern at position `i`.
pub open spec fn matches_ci_at(s: Seq<u8>, p: Seq<u8>, i: int) -> bool {
    0 <= i && i + p.len() <= s.len() && (forall|j: int|
        0 <= j < p.len() ==> ascii_lower(s[i + j]) == #[trigger] p[j])
}

/// The lower-cased text contains the pattern somewhere.
pub open spec fn contains_ci(s: Seq<u8>, p: Seq<u8>) -> bool {
    exists|i: int| #[trigger] matches_ci_at(s, p, i)
}

/// Markers whose presence in a reader name identifies a virtual or software
/// reader, which never hosts a physical card.
pub open spec fn marker_microsoft() -> Seq<u8> {
    seq![109u8, 105u8, 99u8, 114u8, 111u8, 115u8, 111u8, 102u8, 116u8]  // "microsoft"
}

pub open spec fn marker_virtual() -> Seq<u8> {
    seq![118u8, 105u8, 114u8, 116u8, 117u8, 97u8, 108u8]  // "virtual"
}

pub open spec fn marker_remote() -> Seq<u8> {
    seq![114u8, 101u8, 109u8, 111u8, 116u8, 101u8]  // "remote"
}

/// A reader name that, lower-cased, contains a virtual-reader marker.
pub open spec fn virtual_reader_name(s: Seq<u8>) -> bool {
    contains_ci(s, marker_microsoft()) || contains_ci(s, marker_virtual()) || contains_ci(
        s,
        marker_remote(),
    )
}

fn to_lower_byte(b: u8) -> (r: u8)
    ensures
        r == ascii_lower(b),
{
    if 65 <= b && b <= 90 {
        b + 32
    } else {
        b
    }
}

fn match_ci_at_exec(s: &[u8], pat: &[u8], i: usize) -> (r: bool)
    requires
        i + pat@.len() <= s@.len(),
    ensures
        r == matches_ci_at(s@, pat@, i as int),
{
    let n = s.len();
    let mut j: usize = 0;
    while j < pat.len()
        invariant
            j <= pat@.len(),
            i + pat@.len() <= s@.len(),
            n == s@.len(),
            forall|k: int| 0 <= k < j ==> ascii_lower(s@[i + k]) == #[trigger] pat@[k],
        decreases pat@.len() - j,
    {
        if to_lower_byte(s[i + j]) != pat[j] {
            return false;
        }
        j += 1;
    }
    true
}

fn contains_ci_exec(s: &[u8], pat: &[u8]) -> (r: bool)
    requires
        pat@.len() >= 1,
    ensures
        r == contains_ci(s@, pat@),
{
    if s.len() < pat.len() {
        assert(!contains_ci(s@, pat@)) by {
            assert(forall|i: int| !matches_ci_at(s@, pat@, i));
        }
        return false;
    }
    let n = s.len();
    let end = n - pat.len();
    let mut i: usize = 0;
    while i <= end
        invariant
            end == s@.len() - pat@.len(),
            pat@.len() >= 1,
            s@.len() >= pat@.len(),
            s@.len() <= usize::MAX,
            i <= end + 1,
            forall|k: int| 0 <= k < i ==> !matches_ci_at(s@, pat@, k),
        decreases end + 1 - i,
    {
        if match_ci_at_exec(s, pat, i) {
            return true;
        }
        i += 1;
    }
    assert(!contains_ci(s@, pat@)) by {
        assert(forall|k: int| k > end ==> !matches_ci_at(s@, pat@, k));
    }
    false
}

/// A virtual or software reader (its name contains a known marker, compared
/// case-insensitively) never hosts a physical card and must not spawn
/// sessions.  This usually only applies to one desktop platform.
pub fn is_virtual_reader(reader_name: &str) -> (r: bool)
    ensures
        r == virtual_reader_name(reader_name.spec_bytes()),
{
    let bytes = reader_name.as_bytes();
    let m1: Vec<u8> = vec![109u8, 105u8, 99u8, 114u8, 111u8, 115u8, 111u8, 102u8, 116u8];
    let m2: Vec<u8> = vec![118u8, 105u8, 114u8, 116u8, 117u8, 97u8, 108u8];
    let m3: Vec<u8> = vec![114u8, 101u8, 109u8, 111u8, 116u8, 101u8];
    assert(m1@ =~= marker_microsoft());
    assert(m2@ =~= marker_virtual());
    assert(m3@ =~= marker_remote());
    contains_ci_exec(bytes, m1.as_slice()) || contains_ci_exec(bytes, m2.as_slice())
        || contains_ci_exec(bytes, m3.as_slice())
}

/// One tracked reader: its name, the last observed card state, and the
/// card number resolved for the card it holds.
pub struct PoolEntry {
    pub reader: String,
    pub state: CardState,
    pub card_number: String,
}

/// Mathematical image of one registry entry.
pub ghost struct PoolEntryV {
    pub reader: Seq<char>,
    pub state: CardState,
    pub card_number: Seq<char>,
}

impl View for PoolEntry {
    type V = PoolEntryV;

    open spec fn view(&self) -> PoolEntryV {
        PoolEntryV { reader: self.reader@, state: self.state, card_number: self.card_number@ }
    }
}

/// The entries of a registry as mathematical values.
pub open spec fn pool_view(p: Seq<PoolEntry>) -> Seq<PoolEntryV> {
    p.map_values(|e: PoolEntry| e@)
}

/// Some entry tracks this reader.
pub open spec fn pool_has_reader(p: Seq<PoolEntryV>, reader: Seq<char>) -> bool {
    exists|i: int| 0 <= i < p.len() && (#[trigger] p[i]).reader == reader
}

/// Add rule: a new entry is appended only when reader and card number are
/// both non-empty and the reader is not yet tracked.
pub open spec fn pool_add(p: Seq<PoolEntryV>, e: PoolEntryV) -> Seq<PoolEntryV> {
    if pool_has_reader(p, e.reader) {
        p
    } else {
        p.push(e)
    }
}

/// The entries left after removing every entry of one reader.
pub open spec fn pool_without_reader(p: Seq<PoolEntryV>, reader: Seq<char>) -> Seq<PoolEntryV>
    decreases p.len(),
{
    if p.len() == 0 {
        Seq::empty()
    } else if p[0].reader == reader {
        pool_without_reader(p.drop_first(), reader)
    } else {
        seq![p[0]] + pool_without_reader(p.drop_first(), reader)
    }
}

/// The card numbers of one reader's entries, oldest first: on removal these
/// are the numbers whose messaging tasks must be torn down.
pub open spec fn reader_card_numbers(p: Seq<PoolEntryV>, reader: Seq<char>) -> Seq<Seq<char>>
    decreases p.len(),
{
    if p.len() == 0 {
        Seq::empty()
    } else if p[0].reader == reader {
        seq![p[0].card_number] + reader_card_numbers(p.drop_first(), reader)
    } else {
        reader_card_numbers(p.drop_first(), reader)
    }
}

/// How many entries track this reader.
pub open spec fn reader_entry_count(p: Seq<PoolEntryV>, reader: Seq<char>) -> nat {
    reader_card_numbers(p, reader).len()
}

/// The update reports an addition: reader and card number both non-empty.
pub open spec fn addition_reported(reader: Seq<char>, card_number: Seq<char>) -> bool {
    reader.len() > 0 && card_number.len() > 0
}

/// The update reports a removal: reader non-empty, card number empty, and a
/// state that reads empty or unknown.
pub open spec fn removal_reported(reader: Seq<char>, state: CardState, card_number: Seq<char>) -> bool {
    reader.len() > 0 && card_number.len() == 0 && (state.empty || state.unknown)
}

/// True when some entry tracks this reader.
pub fn is_card_connected(reader_cards_pool: &Vec<PoolEntry>, reader_name: &str) -> (r: bool)
    ensures
        r == pool_has_reader(pool_view(reader_cards_pool@), reader_name@),
{
    let mut i: usize = 0;
    while i < reader_cards_pool.len()
        invariant
            i <= reader_cards_pool@.len(),
            forall|k: int|
                0 <= k < i ==> (#[trigger] pool_view(reader_cards_pool@)[k]).reader
                    != reader_name@,
        decreases reader_cards_pool@.len() - i,
    {
        if str_eq(reader_cards_pool[i].reader.as_str(), reader_name) {
            assert(pool_view(reader_cards_pool@)[i as int].reader == reader_name@);
            return true;
        }
        i += 1;
    }
    false
}

/// Feeds one observed (reader, state, card number) triple into the registry.
///
/// If reader and card number are both non-empty and the reader is not yet
/// tracked, an entry is appended.  If the reader is non-empty, the card
/// number empty, and the state reads empty or unknown, every entry of that
/// reader is removed and their card numbers are returned for teardown.  Any
/// other combination is a no-op.
pub fn reader_cards_pool_update(
    reader_cards_pool: &mut Vec<PoolEntry>,
    reader_name: &str,
    card_state: &CardState,
    card_number: &str,
) -> (removed: Vec<String>)
    ensures
        addition_reported(reader_name@, card_number@) ==> pool_view(final(reader_cards_pool)@)
            == pool_add(
            pool_view(old(reader_cards_pool)@),
            (PoolEntryV { reader: reader_name@, state: *card_state, card_number: card_number@ }),
        ) && removed@.len() == 0,
        removal_reported(reader_name@, *card_state, card_number@) ==> pool_view(
            final(reader_cards_pool)@,
        ) == pool_without_reader(pool_view(old(reader_cards_pool)@), reader_name@)
            && removed@.map_values(|s: String| s@) == reader_card_numbers(
            pool_view(old(reader_cards_pool)@),
            reader_name@,
        ),
        !addition_reported(reader_name@, card_number@) && !removal_reported(
            reader_name@,
            *card_state,
            card_number@,
        ) ==> final(reader_cards_pool)@ == old(reader_cards_pool)@ && removed@.len() == 0,
{
    let mut removed: Vec<String> = Vec::new();
    if !reader_name.is_empty() && !card_number.is_empty() {
        if !is_card_connected(reader_cards_pool, reader_name) {
            let entry = PoolEntry {
                reader: reader_name.to_owned(),
                state: *card_state,
                card_number: card_number.to_owned(),
            };
            reader_cards_pool.push(entry);
            assert(pool_view(reader_cards_pool@) =~= pool_add(
                pool_view(old(reader_cards_pool)@),
                (PoolEntryV {
                    reader: reader_name@,
                    state: *card_state,
                    card_number: card_number@,
                }),
            ));
        }
    } else if !reader_name.is_empty() && card_number.is_empty() && (card_state.empty
        || card_state.unknown) {
        let ghost orig = pool_view(old(reader_cards_pool)@);
        let mut i: usize = 0;
        proof {
            assert(orig.subrange(0, orig.len() as int) =~= orig);
        }
        while i < reader_cards_pool.len()
            invariant
                i <= reader_cards_pool@.len(),
                i + removed@.len() <= orig.len(),
                pool_view(reader_cards_pool@).len() == orig.len() - removed@.len(),
                pool_view(reader_cards_pool@).subrange(
                    i as int,
                    pool_view(reader_cards_pool@).len() as int,
                ) == orig.subrange(i + removed@.len(), orig.len() as int),
                pool_without_reader(orig, reader_name@) == pool_view(
                    reader_cards_pool@,
                ).subrange(0, i as int) + pool_without_reader(
                    orig.subrange(i + removed@.len(), orig.len() as int),
                    reader_name@,
                ),
                reader_card_numbers(orig, reader_name@) == removed@.map_values(|s: String| s@)
                    + reader_card_numbers(
                    orig.subrange(i + removed@.len(), orig.len() as int),
                    reader_name@,
                ),
            decreases reader_cards_pool@.len() - i,
        {
            let ghost v_before = pool_view(reader_cards_pool@);
            let ghost j = i + removed@.len();
            let ghost suffix = orig.subrange(j, orig.len() as int);
            proof {
                assert(v_before[i as int] == v_before.subrange(i as int, v_before.len() as int)[0]);
                assert(v_before[i as int] == suffix[0]);
                assert(suffix.drop_first() =~= orig.subrange(j + 1, orig.len() as int));
            }
            if str_eq(reader_cards_pool[i].reader.as_str(), reader_name) {
                let ghost removed_before = removed@;
                let entry = reader_cards_pool.remove(i);
                removed.push(entry.card_number);
                proof {
                    let v_after = pool_view(reader_cards_pool@);
                    assert(v_after =~= v_before.remove(i as int));
                    assert(v_after.subrange(0, i as int) =~= v_before.subrange(0, i as int));
                    assert(v_after.subrange(i as int, v_after.len() as int) =~= orig.subrange(
                        j + 1,
                        orig.len() as int,
                    ));
                    assert(pool_without_reader(suffix, reader_name@) == pool_without_reader(
                        suffix.drop_first(),
                        reader_name@,
                    ));
                    assert(reader_card_numbers(suffix, reader_name@) == seq![suffix[0].card_number]
                        + reader_card_numbers(suffix.drop_first(), reader_name@));
                    assert(entry@.card_number == suffix[0].card_number);
                    assert(removed@ == removed_before.push(entry.card_number));
                    assert(removed@.map_values(|s: String| s@) =~= removed_before.map_values(
                        |s: String| s@,
                    ).push(entry.card_number@));
                    assert(reader_card_numbers(orig, reader_name@) =~= removed@.map_values(
                        |s: String| s@,
                    ) + reader_card_numbers(
                        orig.subrange(i + removed@.len(), orig.len() as int),
                        reader_name@,
                    ));
                }
            } else {
                proof {
                    assert(pool_without_reader(suffix, reader_name@) == seq![suffix[0]]
                        + pool_without_reader(suffix.drop_first(), reader_name@));
                    assert(reader_card_numbers(suffix, reader_name@) == reader_card_numbers(
                        suffix.drop_first(),
                        reader_name@,
                    ));
                    assert(v_before.subrange(0, i + 1) =~= v_before.subrange(0, i as int)
                        + seq![suffix[0]]);
                    assert(pool_without_reader(orig, reader_name@) =~= v_before.subrange(0, i + 1)
                        + pool_without_reader(
                        orig.subrange(i + 1 + removed@.len(), orig.len() as int),
                        reader_name@,
                    ));
                    assert(v_before.subrange(i + 1, v_before.len() as int) =~= orig.subrange(
                        i + 1 + removed@.len(),
                        orig.len() as int,
                    ));
                }
                i += 1;
            }
        }
        proof {
            let v_final = pool_view(reader_cards_pool@);
            assert(orig.subrange(i + removed@.len(), orig.len() as int).len() == 0);
            assert(orig.subrange(i + removed@.len(), orig.len() as int) =~= Seq::<
                PoolEntryV,
            >::empty());
            assert(pool_without_reader(Seq::<PoolEntryV>::empty(), reader_name@)
                == Seq::<PoolEntryV>::empty());
            assert(reader_card_numbers(Seq::<PoolEntryV>::empty(), reader_name@) == Seq::<
                Seq<char>,
            >::empty());
            assert(v_final =~= v_final.subrange(0, i as int));
            assert(pool_without_reader(orig, reader_name@) =~= v_final);
            assert(reader_card_numbers(orig, reader_name@) =~= removed@.map_values(
                |s: String| s@,
            ));
        }
    }
    removed
}

/// The entries left after removing every entry of one card number.
pub open spec fn pool_without_number(p: Seq<PoolEntryV>, card_number: Seq<char>) -> Seq<PoolEntryV>
    decreases p.len(),
{
    if p.len() == 0 {
        Seq::empty()
    } else if p[0].card_number == card_number {
        pool_without_number(p.drop_first(), card_number)
    } else {
        seq![p[0]] + pool_without_number(p.drop_first(), card_number)
    }
}

/// Drops every entry of one card number from the registry: when a card
/// mapping is removed, its presence entries go with it, right after its
/// messaging task is torn down.
pub fn remove_card_number_entries(reader_cards_pool: &mut Vec<PoolEntry>, card_number: &str)
    ensures
        pool_view(final(reader_cards_pool)@) == pool_without_number(
            pool_view(old(reader_cards_pool)@),
            card_number@,
        ),
{
    let ghost orig = pool_view(old(reader_cards_pool)@);
    let n0 = reader_cards_pool.len();
    let mut i: usize = 0;
    let mut dropped: usize = 0;
    proof {
        assert(orig.subrange(0, orig.len() as int) =~= orig);
        assert(orig.len() == n0);
    }
    while i < reader_cards_pool.len()
        invariant
            i <= reader_cards_pool@.len(),
            orig.len() <= usize::MAX,
            i + dropped <= orig.len(),
            pool_view(reader_cards_pool@).len() == orig.len() - dropped,
            pool_view(reader_cards_pool@).subrange(
                i as int,
                pool_view(reader_cards_pool@).len() as int,
            ) == orig.subrange(i + dropped, orig.len() as int),
            pool_without_number(orig, card_number@) == pool_view(
                reader_cards_pool@,
            ).subrange(0, i as int) + pool_without_number(
                orig.subrange(i + dropped, orig.len() as int),
                card_number@,
            ),
        decreases reader_cards_pool@.len() - i,
    {
        let ghost v_before = pool_view(reader_cards_pool@);
        let ghost j = i + dropped;
        let ghost suffix = orig.subrange(j, orig.len() as int);
        proof {
            assert(v_before[i as int] == v_before.subrange(i as int, v_before.len() as int)[0]);
            assert(v_before[i as int] == suffix[0]);
            assert(suffix.drop_first() =~= orig.subrange(j + 1, orig.len() as int));
        }
        if str_eq(reader_cards_pool[i].card_number.as_str(), card_number) {
            let _ = reader_cards_pool.remove(i);
            dropped += 1;
            proof {
                assert(pool_view(reader_cards_pool@) =~= v_before.remove(i as int));
                assert(pool_view(reader_cards_pool@).subrange(0, i as int) =~= v_before.subrange(
                    0,
                    i as int,
                ));
                assert(pool_view(reader_cards_pool@).subrange(
                    i as int,
                    pool_view(reader_cards_pool@).len() as int,
                ) =~= orig.subrange(j + 1, orig.len() as int));
                assert(pool_without_number(suffix, card_number@) == pool_without_number(
                    suffix.drop_first(),
                    card_number@,
                ));
            }
        } else {
            proof {
                assert(pool_without_number(suffix, card_number@) == seq![suffix[0]]
                    + pool_without_number(suffix.drop_first(), card_number@));
                assert(v_before.subrange(0, i + 1) =~= v_before.subrange(0, i as int)
                    + seq![suffix[0]]);
                assert(pool_without_number(orig, card_number@) =~= v_before.subrange(0, i + 1)
                    + pool_without_number(
                    orig.subrange(i + 1 + dropped, orig.len() as int),
                    card_number@,
                ));
                assert(v_before.subrange(i + 1, v_before.len() as int) =~= orig.subrange(
                    i + 1 + dropped,
                    orig.len() as int,
                ));
            }
            i += 1;
        }
    }
    proof {
        assert(orig.subrange(i + dropped, orig.len() as int) =~= Seq::<PoolEntryV>::empty());
        assert(pool_without_number(Seq::<PoolEntryV>::empty(), card_number@) == Seq::<
            PoolEntryV,
        >::empty());
        assert(pool_view(reader_cards_pool@) =~= pool_view(reader_cards_pool@).subrange(
            0,
            i as int,
        ));
        assert(pool_without_number(orig, card_number@) =~= pool_view(reader_cards_pool@));
    }
}

proof fn lemma_numbers_of_untracked(p: Seq<PoolEntryV>, reader: Seq<char>)
    requires
        !pool_has_reader(p, reader),
    ensures
        reader_card_numbers(p, reader) == Seq::<Seq<char>>::empty(),
    decreases p.len(),
{
    if p.len() > 0 {
        assert(p[0].reader != reader);
        assert(!pool_has_reader(p.drop_first(), reader)) by {
            assert(forall|k: int|
                0 <= k < p.drop_first().len() ==> (#[trigger] p.drop_first()[k]) == p[k + 1]);
        }
        lemma_numbers_of_untracked(p.drop_first(), reader);
    }
}

proof fn lemma_numbers_push(p: Seq<PoolEntryV>, e: PoolEntryV, reader: Seq<char>)
    ensures
        e.reader == reader ==> reader_card_numbers(p.push(e), reader) == reader_card_numbers(
            p,
            reader,
        ).push(e.card_number),
        e.reader != reader ==> reader_card_numbers(p.push(e), reader) == reader_card_numbers(
            p,
            reader,
        ),
    decreases p.len(),
{
    if p.len() == 0 {
        assert(reader_card_numbers(Seq::<PoolEntryV>::empty(), reader) =~= Seq::<
            Seq<char>,
        >::empty());
        assert(reader_card_numbers(p, reader) =~= Seq::<Seq<char>>::empty());
        assert(p.push(e)[0] == e);
        assert(p.push(e).drop_first() =~= Seq::<PoolEntryV>::empty());
        if e.reader == reader {
            assert(reader_card_numbers(p.push(e), reader) == seq![e.card_number]
                + reader_card_numbers(Seq::<PoolEntryV>::empty(), reader));
            assert(reader_card_numbers(p.push(e), reader) =~= reader_card_numbers(
                p,
                reader,
            ).push(e.card_number));
        } else {
            assert(reader_card_numbers(p.push(e), reader) == reader_card_numbers(
                Seq::<PoolEntryV>::empty(),
                reader,
            ));
        }
    } else {
        lemma_numbers_push(p.drop_first(), e, reader);
        assert(p.push(e).drop_first() =~= p.drop_first().push(e));
        assert(p.push(e)[0] == p[0]);
        if p[0].reader == reader {
            assert(reader_card_numbers(p, reader) == seq![p[0].card_number]
                + reader_card_numbers(p.drop_first(), reader));
            assert(reader_card_numbers(p.push(e), reader) == seq![p[0].card_number]
                + reader_card_numbers(p.drop_first().push(e), reader));
        } else {
            assert(reader_card_numbers(p, reader) == reader_card_numbers(p.drop_first(), reader));
            assert(reader_card_numbers(p.push(e), reader) == reader_card_numbers(
                p.drop_first().push(e),
                reader,
            ));
        }
        if e.reader == reader {
            assert(reader_card_numbers(p.push(e), reader) =~= reader_card_numbers(
                p,
                reader,
            ).push(e.card_number));
        } else {
            assert(reader_card_numbers(p.push(e), reader) =~= reader_card_numbers(p, reader));
        }
    }
}

/// Presence registry law, additions: adding a (reader, card number) pair to
/// a registry that does not yet track the reader creates exactly one entry
/// for it, and adding the same pair again leaves the registry unchanged.
pub proof fn lemma_registry_add_idempotent(p: Seq<PoolEntryV>, e: PoolEntryV)
    requires
        !pool_has_reader(p, e.reader),
    ensures
        pool_add(p, e) == p.push(e),
        reader_entry_count(pool_add(p, e), e.reader) == 1,
        pool_add(pool_add(p, e), e) == pool_add(p, e),
{
    lemma_numbers_of_untracked(p, e.reader);
    lemma_numbers_push(p, e, e.reader);
    assert(pool_has_reader(p.push(e), e.reader)) by {
        assert(p.push(e)[p.len() as int].reader == e.reader);
    }
}

/// Presence registry law, removals: removing one reader returns exactly the
/// card numbers previously associated with it, in order, and leaves no entry
/// for it; entries of other readers are all kept.
pub proof fn lemma_registry_remove_complete(p: Seq<PoolEntryV>, reader: Seq<char>)
    ensures
        !pool_has_reader(pool_without_reader(p, reader), reader),
        pool_without_reader(p, reader).len() + reader_entry_count(p, reader) == p.len(),
        forall|i: int|
            0 <= i < pool_without_reader(p, reader).len() ==> (#[trigger] pool_without_reader(
                p,
                reader,
            )[i]).reader != reader,
    decreases p.len(),
{
    if p.len() == 0 {
    } else {
        lemma_registry_remove_complete(p.drop_first(), reader);
        if p[0].reader == reader {
        } else {
            assert(forall|i: int|
                0 <= i < pool_without_reader(p, reader).len() ==> (#[trigger] pool_without_reader(
                    p,
                    reader,
                )[i]).reader != reader) by {
                assert(forall|i: int|
                    1 <= i < pool_without_reader(p, reader).len()
                        ==> (#[trigger] pool_without_reader(p, reader)[i])
                        == pool_without_reader(p.drop_first(), reader)[i - 1]);
            }
        }
    }
}

} // verus!

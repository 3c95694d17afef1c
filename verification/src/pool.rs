//! Messaging task pool: the registry of running per-card messaging tasks.
//!
//! One task exists per active card number, owning a broker connection and an
//! event loop.  The pool tracks (card number, handle) entries and enforces
//! the at-most-one-task-per-card-number invariant: a connection is created
//! only for a non-empty card number that has no entry yet.  Removal aborts
//! nothing here — the handles are opaque to the pool — it hands the removed
//! handles back to the caller for teardown.

use vstd::prelude::*;

use crate::strutil::str_eq;

verus! {

/// One running messaging task: the card number it serves and the handle
/// owning its broker client and event loop.
pub struct TaskEntry<H> {
    pub card_number: String,
    pub handle: H,
}

/// Registry of running messaging tasks, keyed by card number.
pub struct TaskPool<H> {
    entries: Vec<TaskEntry<H>>,
}

impl<H> View for TaskPool<H> {
    type V = Seq<Seq<char>>;

    /// The card numbers with a live entry, in insertion order.
    closed spec fn view(&self) -> Seq<Seq<char>> {
        self.entries@.map_values(|e: TaskEntry<H>| e.card_number@)
    }
}

/// What asking for a connection does to the tracked card numbers: nothing
/// for an empty card number or one already tracked, otherwise one new entry.
pub open spec fn pool_ensure(p: Seq<Seq<char>>, n: Seq<char>) -> Seq<Seq<char>> {
    if n.len() == 0 || p.contains(n) {
        p
    } else {
        p.push(n)
    }
}

/// The card numbers left after removing every entry named in `remove`.
pub open spec fn numbers_without(p: Seq<Seq<char>>, remove: Seq<Seq<char>>) -> Seq<Seq<char>>
    decreases p.len(),
{
    if p.len() == 0 {
        Seq::empty()
    } else if remove.contains(p[0]) {
        numbers_without(p.drop_first(), remove)
    } else {
        seq![p[0]] + numbers_without(p.drop_first(), remove)
    }
}

/// How many entries carry this card number.
pub open spec fn count_matches(p: Seq<Seq<char>>, n: Seq<char>) -> nat
    decreases p.len(),
{
    if p.len() == 0 {
        0
    } else if p[0] == n {
        1 + count_matches(p.drop_first(), n)
    } else {
        count_matches(p.drop_first(), n)
    }
}

/// Membership test for a card number among a list of numbers.
fn vec_contains_str(numbers: &Vec<String>, n: &str) -> (r: bool)
    ensures
        r == numbers@.map_values(|s: String| s@).contains(n@),
{
    let mut i: usize = 0;
    while i < numbers.len()
        invariant
            i <= numbers@.len(),
            forall|k: int| 0 <= k < i ==> (#[trigger] numbers@[k])@ != n@,
        decreases numbers@.len() - i,
    {
        if str_eq(numbers[i].as_str(), n) {
            assert(numbers@.map_values(|s: String| s@)[i as int] == n@);
            return true;
        }
        i += 1;
    }
    assert(!numbers@.map_values(|s: String| s@).contains(n@)) by {
        assert(forall|k: int|
            0 <= k < numbers@.len() ==> numbers@.map_values(|s: String| s@)[k] == (
            #[trigger] numbers@[k])@);
    }
    false
}

impl<H> TaskPool<H> {
    /// An empty pool: no running task.
    pub fn new() -> (r: Self)
        ensures
            r@ == Seq::<Seq<char>>::empty(),
    {
        let r = TaskPool { entries: Vec::new() };
        proof {
            assert(r@ =~= Seq::<Seq<char>>::empty());
        }
        r
    }

    /// Some entry serves this card number.
    pub fn contains_card(&self, card_number: &str) -> (r: bool)
        ensures
            r == self@.contains(card_number@),
    {
        let mut i: usize = 0;
        while i < self.entries.len()
            invariant
                i <= self.entries@.len(),
                forall|k: int| 0 <= k < i ==> self@[k] != card_number@,
            decreases self.entries@.len() - i,
        {
            if str_eq(self.entries[i].card_number.as_str(), card_number) {
                assert(self@[i as int] == card_number@);
                return true;
            }
            i += 1;
        }
        assert(!self@.contains(card_number@));
        false
    }

    /// A connection must be opened for this card number: it is non-empty and
    /// no task serves it yet.  The caller opens the broker connection and
    /// spawns the task only when this holds.
    pub fn needs_connection(&self, card_number: &str) -> (r: bool)
        ensures
            r == (card_number@.len() > 0 && !self@.contains(card_number@)),
    {
        !card_number.is_empty() && !self.contains_card(card_number)
    }

    /// Registers the messaging task serving one card number.
    ///
    /// A no-op for an empty card number — an unresolved card must never reach
    /// the broker layer — and for a card number that already has an entry, so
    /// at most one task exists per card number.  In the no-op cases the
    /// handle is handed back to the caller for teardown; `None` means the
    /// entry was added.
    pub fn ensure_connection(&mut self, card_number: &str, handle: H) -> (rejected: Option<H>)
        ensures
            final(self)@ == pool_ensure(old(self)@, card_number@),
            (card_number@.len() == 0 || old(self)@.contains(card_number@)) <==> (rejected matches
                Some(h) && h == handle),
    {
        if card_number.is_empty() {
            return Some(handle);
        }
        if self.contains_card(card_number) {
            return Some(handle);
        }
        let entry = TaskEntry { card_number: card_number.to_owned(), handle };
        self.entries.push(entry);
        proof {
            assert(self@ =~= old(self)@.push(card_number@));
        }
        None
    }

    /// Removes the entries of the given card numbers and returns their
    /// handles, for the caller to abort.  A card number with no entry is
    /// passed over: removing it is a no-op and not an error.
    pub fn remove_connections(&mut self, card_numbers: &Vec<String>) -> (handles: Vec<H>)
        ensures
            final(self)@ == numbers_without(
                old(self)@,
                card_numbers@.map_values(|s: String| s@),
            ),
            final(self)@.len() + handles@.len() == old(self)@.len(),
    {
        let ghost orig = self@;
        let ghost remove = card_numbers@.map_values(|s: String| s@);
        let mut handles: Vec<H> = Vec::new();
        let mut i: usize = 0;
        proof {
            assert(orig.subrange(0, orig.len() as int) =~= orig);
        }
        while i < self.entries.len()
            invariant
                i <= self.entries@.len(),
                i + handles@.len() <= orig.len(),
                remove == card_numbers@.map_values(|s: String| s@),
                self@.len() == orig.len() - handles@.len(),
                self@.subrange(i as int, self@.len() as int) == orig.subrange(
                    i + handles@.len(),
                    orig.len() as int,
                ),
                numbers_without(orig, remove) == self@.subrange(0, i as int) + numbers_without(
                    orig.subrange(i + handles@.len(), orig.len() as int),
                    remove,
                ),
            decreases self.entries@.len() - i,
        {
            let ghost v_before = self@;
            let ghost j = i + handles@.len();
            let ghost suffix = orig.subrange(j, orig.len() as int);
            proof {
                assert(v_before[i as int] == v_before.subrange(i as int, v_before.len() as int)[0]);
                assert(v_before[i as int] == suffix[0]);
                assert(suffix.drop_first() =~= orig.subrange(j + 1, orig.len() as int));
            }
            if vec_contains_str(card_numbers, self.entries[i].card_number.as_str()) {
                let entry = self.entries.remove(i);
                handles.push(entry.handle);
                proof {
                    assert(self@ =~= v_before.remove(i as int));
                    assert(self@.subrange(0, i as int) =~= v_before.subrange(0, i as int));
                    assert(self@.subrange(i as int, self@.len() as int) =~= orig.subrange(
                        j + 1,
                        orig.len() as int,
                    ));
                    assert(numbers_without(suffix, remove) == numbers_without(
                        suffix.drop_first(),
                        remove,
                    ));
                }
            } else {
                proof {
                    assert(numbers_without(suffix, remove) == seq![suffix[0]] + numbers_without(
                        suffix.drop_first(),
                        remove,
                    ));
                    assert(v_before.subrange(0, i + 1) =~= v_before.subrange(0, i as int)
                        + seq![suffix[0]]);
                    assert(numbers_without(orig, remove) =~= v_before.subrange(0, i + 1)
                        + numbers_without(
                        orig.subrange(i + 1 + handles@.len(), orig.len() as int),
                        remove,
                    ));
                    assert(v_before.subrange(i + 1, v_before.len() as int) =~= orig.subrange(
                        i + 1 + handles@.len(),
                        orig.len() as int,
                    ));
                }
                i += 1;
            }
        }
        proof {
            assert(orig.subrange(i + handles@.len(), orig.len() as int) =~= Seq::<
                Seq<char>,
            >::empty());
            assert(numbers_without(Seq::<Seq<char>>::empty(), remove) == Seq::<Seq<char>>::empty());
            assert(self@ =~= self@.subrange(0, i as int));
            assert(numbers_without(orig, remove) =~= self@);
        }
        handles
    }

    /// Removes every entry and returns all handles, for a full manual resync:
    /// the caller aborts each returned handle.
    pub fn remove_connections_all(&mut self) -> (handles: Vec<H>)
        ensures
            final(self)@ == Seq::<Seq<char>>::empty(),
            handles@.len() == old(self)@.len(),
    {
        let mut handles: Vec<H> = Vec::new();
        while self.entries.len() > 0
            invariant
                handles@.len() + self.entries@.len() == old(self)@.len(),
            decreases self.entries@.len(),
        {
            let entry = self.entries.pop().unwrap();
            handles.push(entry.handle);
        }
        proof {
            assert(self@ =~= Seq::<Seq<char>>::empty());
        }
        handles
    }
}

/// Well-formed pool: every tracked card number is non-empty, and no card
/// number has two entries.
pub open spec fn pool_wf(p: Seq<Seq<char>>) -> bool {
    (forall|i: int| 0 <= i < p.len() ==> (#[trigger] p[i]).len() > 0) && (forall|i: int, j: int|
        0 <= i < j < p.len() ==> p[i] != p[j])
}

proof fn lemma_numbers_without_subset(p: Seq<Seq<char>>, remove: Seq<Seq<char>>)
    ensures
        forall|x: Seq<char>|
            #[trigger] numbers_without(p, remove).contains(x) ==> p.contains(x),
    decreases p.len(),
{
    if p.len() == 0 {
    } else {
        lemma_numbers_without_subset(p.drop_first(), remove);
        assert forall|x: Seq<char>| #[trigger] numbers_without(p, remove).contains(x) implies p.contains(
            x,
        ) by {
            if remove.contains(p[0]) {
                assert(numbers_without(p.drop_first(), remove).contains(x));
                assert(p.drop_first().contains(x));
                let m = choose|m: int|
                    0 <= m < p.drop_first().len() && p.drop_first()[m] == x;
                assert(p[m + 1] == x);
            } else {
                let nw = numbers_without(p, remove);
                let k = choose|k: int| 0 <= k < nw.len() && nw[k] == x;
                if k == 0 {
                    assert(p[0] == x);
                } else {
                    assert(numbers_without(p.drop_first(), remove)[k - 1] == x);
                    assert(numbers_without(p.drop_first(), remove).contains(x));
                    let m = choose|m: int|
                        0 <= m < p.drop_first().len() && p.drop_first()[m] == x;
                    assert(p[m + 1] == x);
                }
            }
        }
    }
}

proof fn lemma_drop_first_wf(p: Seq<Seq<char>>)
    requires
        pool_wf(p),
        p.len() > 0,
    ensures
        pool_wf(p.drop_first()),
{
    assert(forall|i: int|
        0 <= i < p.drop_first().len() ==> #[trigger] p.drop_first()[i] == p[i + 1]);
}

proof fn lemma_numbers_without_wf(p: Seq<Seq<char>>, remove: Seq<Seq<char>>)
    requires
        pool_wf(p),
    ensures
        pool_wf(numbers_without(p, remove)),
    decreases p.len(),
{
    if p.len() == 0 {
    } else {
        lemma_drop_first_wf(p);
        lemma_numbers_without_wf(p.drop_first(), remove);
        lemma_numbers_without_subset(p.drop_first(), remove);
        if remove.contains(p[0]) {
        } else {
            let rest = numbers_without(p.drop_first(), remove);
            let nw = numbers_without(p, remove);
            assert(nw == seq![p[0]] + rest);
            assert forall|i: int, j: int| 0 <= i < j < nw.len() implies nw[i] != nw[j] by {
                if i == 0 {
                    assert(nw[j] == rest[j - 1]);
                    assert(rest.contains(rest[j - 1]));
                    assert(p.drop_first().contains(rest[j - 1]));
                    let m = choose|m: int|
                        0 <= m < p.drop_first().len() && p.drop_first()[m] == rest[j - 1];
                    assert(p[m + 1] == rest[j - 1]);
                    assert(p[0] != p[m + 1]);
                } else {
                    assert(nw[i] == rest[i - 1] && nw[j] == rest[j - 1]);
                }
            }
            assert forall|i: int| 0 <= i < nw.len() implies (#[trigger] nw[i]).len() > 0 by {
                if i == 0 {
                    assert(nw[0] == p[0]);
                } else {
                    assert(nw[i] == rest[i - 1]);
                    assert(rest.contains(rest[i - 1]));
                    assert(p.drop_first().contains(rest[i - 1]));
                    let m = choose|m: int|
                        0 <= m < p.drop_first().len() && p.drop_first()[m] == rest[i - 1];
                    assert(p[m + 1] == rest[i - 1]);
                }
            }
        }
    }
}

/// Pool invariant law: the at-most-one-task-per-card-number discipline is
/// preserved by every pool operation — asking for a connection keeps the
/// card numbers distinct and non-empty, and so does removing any set of
/// card numbers.
pub proof fn lemma_pool_operations_preserve_wf(
    p: Seq<Seq<char>>,
    n: Seq<char>,
    remove: Seq<Seq<char>>,
)
    requires
        pool_wf(p),
    ensures
        pool_wf(pool_ensure(p, n)),
        pool_wf(numbers_without(p, remove)),
{
    if n.len() > 0 && !p.contains(n) {
        let q = p.push(n);
        assert forall|i: int, j: int| 0 <= i < j < q.len() implies q[i] != q[j] by {
            if j == p.len() {
                assert(q[i] == p[i]);
                assert(p.contains(p[i]));
            }
        }
        assert(forall|i: int| 0 <= i < p.len() ==> #[trigger] q[i] == p[i]);
    }
    lemma_numbers_without_wf(p, remove);
}

proof fn lemma_count_untracked(p: Seq<Seq<char>>, n: Seq<char>)
    requires
        !p.contains(n),
    ensures
        count_matches(p, n) == 0,
    decreases p.len(),
{
    if p.len() > 0 {
        assert(p[0] != n);
        assert(!p.drop_first().contains(n)) by {
            assert(forall|k: int|
                0 <= k < p.drop_first().len() ==> #[trigger] p.drop_first()[k] == p[k + 1]);
        }
        lemma_count_untracked(p.drop_first(), n);
    }
}

proof fn lemma_count_push(p: Seq<Seq<char>>, e: Seq<char>, n: Seq<char>)
    ensures
        e == n ==> count_matches(p.push(e), n) == count_matches(p, n) + 1,
        e != n ==> count_matches(p.push(e), n) == count_matches(p, n),
    decreases p.len(),
{
    if p.len() == 0 {
        assert(p.push(e)[0] == e);
        assert(p.push(e).drop_first() =~= Seq::<Seq<char>>::empty());
        assert(count_matches(Seq::<Seq<char>>::empty(), n) == 0);
        assert(count_matches(p, n) == 0);
    } else {
        lemma_count_push(p.drop_first(), e, n);
        assert(p.push(e).drop_first() =~= p.drop_first().push(e));
        assert(p.push(e)[0] == p[0]);
    }
}

/// Messaging pool law, idempotence: asking for a connection twice in
/// sequence with the same non-empty card number leaves exactly one entry for
/// that card number in the pool.
pub proof fn lemma_ensure_connection_idempotent(p: Seq<Seq<char>>, n: Seq<char>)
    requires
        n.len() > 0,
        !p.contains(n),
    ensures
        count_matches(pool_ensure(p, n), n) == 1,
        pool_ensure(pool_ensure(p, n), n) == pool_ensure(p, n),
{
    lemma_count_untracked(p, n);
    lemma_count_push(p, n, n);
    assert(pool_ensure(p, n) == p.push(n));
    assert(p.push(n).contains(n)) by {
        assert(p.push(n)[p.len() as int] == n);
    }
}

/// Messaging pool law, empty card number: asking for a connection with an
/// empty card number never creates an entry.
pub proof fn lemma_ensure_connection_empty(p: Seq<Seq<char>>, n: Seq<char>)
    requires
        n.len() == 0,
    ensures
        pool_ensure(p, n) == p,
{
}

/// Messaging pool law, absent removals: removing a card number that has no
/// entry leaves the pool exactly as it was.
pub proof fn lemma_remove_absent(p: Seq<Seq<char>>, remove: Seq<Seq<char>>)
    requires
        forall|k: int| 0 <= k < remove.len() ==> !p.contains(#[trigger] remove[k]),
    ensures
        numbers_without(p, remove) == p,
    decreases p.len(),
{
    if p.len() > 0 {
        assert(p.contains(p[0]));
        assert(!remove.contains(p[0]));
        assert forall|k: int| 0 <= k < remove.len() implies !p.drop_first().contains(
            #[trigger] remove[k],
        ) by {
            if p.drop_first().contains(remove[k]) {
                let m = choose|m: int|
                    0 <= m < p.drop_first().len() && p.drop_first()[m] == remove[k];
                assert(p[m + 1] == remove[k]);
                assert(p.contains(remove[k]));
            }
        }
        lemma_remove_absent(p.drop_first(), remove);
        assert(numbers_without(p, remove) =~= p);
    }
}

} // verus!

//! The connection-accounting table.
//!
//! The table maps a [`ConnectionKey`] to the number of currently open
//! connections of that flow class. The surrounding process serializes all
//! calls (behind one lock or one worker task), so the table itself is plain
//! sequential data: a list of (key, count) entries with unique keys, every
//! held count at least one. A count that reaches zero has its entry removed.
//!
//! The abstract model is a `Map<ConnectionKey, nat>`; [`step_map`] gives the
//! effect of one increase or decrease on that model, and [`run_map`] the
//! effect of a whole serialized history of operations. The counting laws at
//! the end of this module are stated over that model.

use vstd::prelude::*;
use crate::flow::ConnectionKey;
use crate::addr::SocketAddress;

verus! {

/// One accounting operation, as relay connections issue them.
#[derive(Clone, Copy, PartialEq, Eq, Debug, Structural)]
pub enum AccountOp {
    Increase(ConnectionKey),
    Decrease(ConnectionKey),
}

/// The key an operation is about.
pub open spec fn op_key(op: AccountOp) -> ConnectionKey {
    match op {
        AccountOp::Increase(k) => k,
        AccountOp::Decrease(k) => k,
    }
}

/// The count an abstract table holds for `k`; an absent key counts zero.
pub open spec fn map_count(m: Map<ConnectionKey, nat>, k: ConnectionKey) -> nat {
    if m.dom().contains(k) { m[k] } else { 0 }
}

/// Every entry the abstract table holds is at least one: a count that
/// reaches zero is removed rather than kept.
pub open spec fn positive_counts(m: Map<ConnectionKey, nat>) -> bool {
    forall|k: ConnectionKey| m.dom().contains(k) ==> m[k] >= 1
}

/// The effect of one operation on the abstract table. An increase inserts
/// the key at one or increments it; a decrease decrements, removing an entry
/// that reaches zero, and is a no-op on a key that already counts zero.
pub open spec fn step_map(m: Map<ConnectionKey, nat>, op: AccountOp) -> Map<ConnectionKey, nat> {
    match op {
        AccountOp::Increase(k) => m.insert(k, map_count(m, k) + 1),
        AccountOp::Decrease(k) => if map_count(m, k) == 0 {
            m
        } else if map_count(m, k) == 1 {
            m.remove(k)
        } else {
            m.insert(k, (map_count(m, k) - 1) as nat)
        },
    }
}

/// The table after a serialized history of operations.
pub open spec fn run_map(m: Map<ConnectionKey, nat>, ops: Seq<AccountOp>) -> Map<ConnectionKey, nat>
    decreases ops.len(),
{
    if ops.len() == 0 {
        m
    } else {
        run_map(step_map(m, ops[0]), ops.skip(1))
    }
}

/// How many operations in `ops` increase `k`.
pub open spec fn num_increases(ops: Seq<AccountOp>, k: ConnectionKey) -> nat
    decreases ops.len(),
{
    if ops.len() == 0 {
        0
    } else {
        (if ops[0] == AccountOp::Increase(k) { 1nat } else { 0nat }) + num_increases(ops.skip(1), k)
    }
}

/// How many operations in `ops` decrease `k`.
pub open spec fn num_decreases(ops: Seq<AccountOp>, k: ConnectionKey) -> nat
    decreases ops.len(),
{
    if ops.len() == 0 {
        0
    } else {
        (if ops[0] == AccountOp::Decrease(k) { 1nat } else { 0nat }) + num_decreases(ops.skip(1), k)
    }
}

/// Starting from count `c` for key `k`, the history never decreases `k`
/// while its count is zero. The relay guarantees this shape: a connection
/// issues its decrease only after its own increase has completed.
pub open spec fn never_underflows(c: nat, ops: Seq<AccountOp>, k: ConnectionKey) -> bool
    decreases ops.len(),
{
    if ops.len() == 0 {
        true
    } else if ops[0] == AccountOp::Increase(k) {
        never_underflows(c + 1, ops.skip(1), k)
    } else if ops[0] == AccountOp::Decrease(k) {
        c >= 1 && never_underflows((c - 1) as nat, ops.skip(1), k)
    } else {
        never_underflows(c, ops.skip(1), k)
    }
}

/// Whether some entry of the association list carries key `k`.
pub open spec fn has_key(s: Seq<(ConnectionKey, usize)>, k: ConnectionKey) -> bool {
    exists|i: int| 0 <= i < s.len() && s[i].0 == k
}

/// The index of the entry carrying `k` (meaningful only when `has_key`).
pub open spec fn key_index(s: Seq<(ConnectionKey, usize)>, k: ConnectionKey) -> int {
    choose|i: int| 0 <= i < s.len() && s[i].0 == k
}

/// The count an association list gives `k`; an absent key counts zero.
pub open spec fn assoc_count(s: Seq<(ConnectionKey, usize)>, k: ConnectionKey) -> nat {
    if has_key(s, k) {
        s[key_index(s, k)].1 as nat
    } else {
        0
    }
}

/// No two entries of the association list carry the same key.
pub open spec fn unique_keys(s: Seq<(ConnectionKey, usize)>) -> bool {
    forall|i: int, j: int| 0 <= i < j < s.len() ==> s[i].0 != s[j].0
}

/// Every entry of the association list holds a count of at least one.
pub open spec fn counts_positive(s: Seq<(ConnectionKey, usize)>) -> bool {
    forall|i: int| 0 <= i < s.len() ==> (#[trigger] s[i]).1 >= 1
}

/// In a list with unique keys, the entry at `i` is the one its key finds.
proof fn lemma_key_at(s: Seq<(ConnectionKey, usize)>, i: int)
    requires
        unique_keys(s),
        0 <= i < s.len(),
    ensures
        has_key(s, s[i].0),
        key_index(s, s[i].0) == i,
        assoc_count(s, s[i].0) == s[i].1 as nat,
{
    assert(has_key(s, s[i].0));
    let j = key_index(s, s[i].0);
    assert(0 <= j < s.len() && s[j].0 == s[i].0);
    if i < j {
        assert(s[i].0 != s[j].0);
    } else if j < i {
        assert(s[j].0 != s[i].0);
    }
}

/// The live accounting table: a list of (key, count) entries with unique
/// keys and positive counts. Its abstract value is the map it represents.
pub struct AccountTable {
    entries: Vec<(ConnectionKey, usize)>,
}

impl View for AccountTable {
    type V = Map<ConnectionKey, nat>;

    closed spec fn view(&self) -> Map<ConnectionKey, nat> {
        Map::new(
            |k: ConnectionKey| has_key(self.entries@, k),
            |k: ConnectionKey| assoc_count(self.entries@, k),
        )
    }
}

impl AccountTable {
    /// Internal shape: unique keys, every count at least one.
    pub closed spec fn wf(self) -> bool {
        unique_keys(self.entries@) && counts_positive(self.entries@)
    }

    /// The number of open connections the table holds for `k`.
    pub open spec fn count(self, k: ConnectionKey) -> nat {
        map_count(self@, k)
    }

    /// An empty table: every key counts zero.
    pub fn new() -> (t: AccountTable)
        ensures
            t.wf(),
            t@ == Map::<ConnectionKey, nat>::empty(),
            forall|k: ConnectionKey| t.count(k) == 0,
    {
        let t = AccountTable { entries: Vec::new() };
        proof {
            assert(t@ =~= Map::<ConnectionKey, nat>::empty());
        }
        t
    }

    /// Where `key`'s entry sits, if it has one.
    fn find_index(&self, key: &ConnectionKey) -> (r: Option<usize>)
        ensures
            match r {
                Some(i) => i < self.entries@.len() && self.entries@[i as int].0 == *key,
                None => !has_key(self.entries@, *key),
            },
    {
        let mut i: usize = 0;
        while i < self.entries.len()
            invariant
                i <= self.entries@.len(),
                forall|j: int| 0 <= j < i ==> self.entries@[j].0 != *key,
            decreases self.entries@.len() - i,
        {
            if self.entries[i].0 == *key {
                return Some(i);
            }
            i = i + 1;
        }
        None
    }

    /// Records one more open connection for `key`: inserts the key at one if
    /// it is absent, otherwise increments its count. Counts of other keys
    /// are untouched.
    pub fn increase(&mut self, key: ConnectionKey)
        requires
            old(self).wf(),
            old(self).count(key) < usize::MAX,
        ensures
            final(self).wf(),
            final(self)@ == step_map(old(self)@, AccountOp::Increase(key)),
            final(self).count(key) == old(self).count(key) + 1,
            forall|k2: ConnectionKey| k2 != key ==> final(self).count(k2) == old(self).count(k2),
    {
        let ghost s0 = self.entries@;
        match self.find_index(&key) {
            Some(i) => {
                proof {
                    lemma_key_at(s0, i as int);
                }
                let c = self.entries[i].1;
                self.entries[i] = (key, c + 1);
                proof {
                    let s1 = self.entries@;
                    assert forall|j: int| 0 <= j < s1.len() implies s1[j].0 == s0[j].0 by {}
                    assert forall|k2: ConnectionKey| has_key(s1, k2) == has_key(s0, k2) by {
                        if has_key(s0, k2) {
                            let j = key_index(s0, k2);
                            assert(s1[j].0 == k2);
                        }
                        if has_key(s1, k2) {
                            let j = key_index(s1, k2);
                            assert(s0[j].0 == k2);
                        }
                    }
                    assert(unique_keys(s1));
                    assert(counts_positive(s1));
                    lemma_key_at(s1, i as int);
                    assert forall|k2: ConnectionKey| k2 != key && has_key(s0, k2) implies
                        assoc_count(s1, k2) == assoc_count(s0, k2) by {
                        let j = key_index(s0, k2);
                        lemma_key_at(s0, j);
                        assert(j != i as int);
                        lemma_key_at(s1, j);
                    }
                    assert(self@ =~= step_map(old(self)@, AccountOp::Increase(key)));
                }
            },
            None => {
                self.entries.push((key, 1));
                proof {
                    let s1 = self.entries@;
                    assert(s1.len() == s0.len() + 1);
                    assert(s1[s0.len() as int] == (key, 1usize));
                    assert forall|j: int| 0 <= j < s0.len() implies s1[j] == s0[j] by {}
                    assert(unique_keys(s1)) by {
                        assert forall|i: int, j: int| 0 <= i < j < s1.len() implies
                            s1[i].0 != s1[j].0 by {
                            if j == s0.len() as int {
                                assert(!has_key(s0, key));
                                assert(s0[i].0 != key);
                            }
                        }
                    }
                    assert(counts_positive(s1));
                    lemma_key_at(s1, s0.len() as int);
                    assert forall|k2: ConnectionKey| k2 != key implies
                        has_key(s1, k2) == has_key(s0, k2) && assoc_count(s1, k2) == assoc_count(s0, k2) by {
                        if has_key(s0, k2) {
                            let j = key_index(s0, k2);
                            assert(s1[j].0 == k2);
                            lemma_key_at(s1, j);
                        }
                        if has_key(s1, k2) {
                            let j = key_index(s1, k2);
                            assert(j != s0.len() as int);
                            assert(s0[j].0 == k2);
                            lemma_key_at(s0, j);
                        }
                    }
                    assert(!has_key(s0, key));
                    assert(self@ =~= step_map(old(self)@, AccountOp::Increase(key)));
                }
            },
        }
    }

    /// Records one connection of `key` as closed: decrements its count,
    /// removing the entry when the count reaches zero. A key that counts
    /// zero is left untouched — a stray decrease is absorbed, never an
    /// underflow. Counts of other keys are untouched.
    pub fn decrease(&mut self, key: ConnectionKey)
        requires
            old(self).wf(),
        ensures
            final(self).wf(),
            final(self)@ == step_map(old(self)@, AccountOp::Decrease(key)),
            final(self).count(key) == if old(self).count(key) > 0 {
                (old(self).count(key) - 1) as nat
            } else {
                0nat
            },
            forall|k2: ConnectionKey| k2 != key ==> final(self).count(k2) == old(self).count(k2),
    {
        let ghost s0 = self.entries@;
        match self.find_index(&key) {
            Some(i) => {
                proof {
                    lemma_key_at(s0, i as int);
                }
                let c = self.entries[i].1;
                if c <= 1 {
                    self.entries.remove(i);
                    proof {
                        let s1 = self.entries@;
                        assert forall|j: int| 0 <= j < s1.len() implies
                            s1[j] == (if j < i as int { s0[j] } else { s0[j + 1] }) by {}
                        assert(unique_keys(s1)) by {
                            assert forall|x: int, y: int| 0 <= x < y < s1.len() implies
                                s1[x].0 != s1[y].0 by {
                                let x0 = if x < i as int { x } else { x + 1 };
                                let y0 = if y < i as int { y } else { y + 1 };
                                assert(s0[x0].0 != s0[y0].0);
                            }
                        }
                        assert(counts_positive(s1));
                        assert(!has_key(s1, key)) by {
                            if has_key(s1, key) {
                                let j = key_index(s1, key);
                                let j0 = if j < i as int { j } else { j + 1 };
                                assert(s0[j0].0 == key);
                                lemma_key_at(s0, j0);
                            }
                        }
                        assert forall|k2: ConnectionKey| k2 != key implies
                            has_key(s1, k2) == has_key(s0, k2) && assoc_count(s1, k2) == assoc_count(s0, k2) by {
                            if has_key(s0, k2) {
                                let j0 = key_index(s0, k2);
                                lemma_key_at(s0, j0);
                                assert(j0 != i as int);
                                let j = if j0 < i as int { j0 } else { j0 - 1 };
                                assert(s1[j] == s0[j0]);
                                lemma_key_at(s1, j);
                            }
                            if has_key(s1, k2) {
                                let j = key_index(s1, k2);
                                let j0 = if j < i as int { j } else { j + 1 };
                                assert(s0[j0].0 == k2);
                                lemma_key_at(s0, j0);
                            }
                        }
                        assert(old(self).count(key) == 1) by {
                            assert(s0[i as int].1 >= 1);
                        }
                        assert(self@ =~= step_map(old(self)@, AccountOp::Decrease(key)));
                    }
                } else {
                    self.entries[i] = (key, c - 1);
                    proof {
                        let s1 = self.entries@;
                        assert forall|j: int| 0 <= j < s1.len() implies s1[j].0 == s0[j].0 by {}
                        assert forall|k2: ConnectionKey| has_key(s1, k2) == has_key(s0, k2) by {
                            if has_key(s0, k2) {
                                let j = key_index(s0, k2);
                                assert(s1[j].0 == k2);
                            }
                            if has_key(s1, k2) {
                                let j = key_index(s1, k2);
                                assert(s0[j].0 == k2);
                            }
                        }
                        assert(unique_keys(s1));
                        assert(counts_positive(s1));
                        lemma_key_at(s1, i as int);
                        assert forall|k2: ConnectionKey| k2 != key && has_key(s0, k2) implies
                            assoc_count(s1, k2) == assoc_count(s0, k2) by {
                            let j = key_index(s0, k2);
                            lemma_key_at(s0, j);
                            assert(j != i as int);
                            lemma_key_at(s1, j);
                        }
                        assert(self@ =~= step_map(old(self)@, AccountOp::Decrease(key)));
                    }
                }
            },
            None => {
                proof {
                    assert(self@ =~= step_map(old(self)@, AccountOp::Decrease(key)));
                }
            },
        }
    }

    /// A point-in-time copy of the whole table, entry by entry: unique keys,
    /// positive counts, and for every key exactly the count the table holds.
    pub fn snapshot(&self) -> (r: Vec<(ConnectionKey, usize)>)
        requires
            self.wf(),
        ensures
            unique_keys(r@),
            counts_positive(r@),
            forall|k: ConnectionKey| #[trigger] assoc_count(r@, k) == self.count(k),
            forall|k: ConnectionKey| #[trigger] has_key(r@, k) == self@.dom().contains(k),
    {
        let mut r: Vec<(ConnectionKey, usize)> = Vec::new();
        let mut i: usize = 0;
        while i < self.entries.len()
            invariant
                i <= self.entries@.len(),
                r@ == self.entries@.take(i as int),
            decreases self.entries@.len() - i,
        {
            let entry = self.entries[i];
            r.push(entry);
            proof {
                assert(r@ =~= self.entries@.take(i as int + 1));
            }
            i = i + 1;
        }
        proof {
            assert(r@ =~= self.entries@);
        }
        r
    }
}

/// One message to the book-keeping worker that owns the table: a connection
/// opened, a connection closed, or a request for the current table.
#[derive(Clone, Copy, PartialEq, Eq, Debug, Structural)]
pub enum BookEvent {
    New(ConnectionKey),
    Disconnect(ConnectionKey),
    ListAll,
}

impl AccountTable {
    /// Applies one book-keeping event, exactly as the worker that owns the
    /// table dispatches them: `New` increases, `Disconnect` decreases, and
    /// `ListAll` leaves the table as it is and hands back a snapshot.
    pub fn apply_event(&mut self, event: BookEvent) -> (r: Option<Vec<(ConnectionKey, usize)>>)
        requires
            old(self).wf(),
            event matches BookEvent::New(k) ==> old(self).count(k) < usize::MAX,
        ensures
            final(self).wf(),
            match event {
                BookEvent::New(k) => final(self)@ == step_map(old(self)@, AccountOp::Increase(k))
                    && r is None,
                BookEvent::Disconnect(k) => final(self)@ == step_map(
                    old(self)@,
                    AccountOp::Decrease(k),
                ) && r is None,
                BookEvent::ListAll => final(self)@ == old(self)@ && (r matches Some(rows)
                    && unique_keys(rows@)
                    && counts_positive(rows@)
                    && (forall|k: ConnectionKey| #[trigger] assoc_count(rows@, k) == old(self).count(k))
                    && (forall|k: ConnectionKey| #[trigger] has_key(rows@, k) == old(self)@.dom().contains(k))),
            },
    {
        match event {
            BookEvent::New(k) => {
                self.increase(k);
                None
            },
            BookEvent::Disconnect(k) => {
                self.decrease(k);
                None
            },
            BookEvent::ListAll => Some(self.snapshot()),
        }
    }
}

/// A decrease of a key that counts zero changes nothing: counts are natural
/// numbers and can never be driven below zero, in any call order.
pub proof fn lemma_decrease_at_zero(m: Map<ConnectionKey, nat>, k: ConnectionKey)
    requires
        map_count(m, k) == 0,
    ensures
        step_map(m, AccountOp::Decrease(k)) == m,
{
}

/// One operation on one key never perturbs any other key: neither its count
/// nor whether the table holds it.
pub proof fn lemma_step_isolated(m: Map<ConnectionKey, nat>, op: AccountOp, k2: ConnectionKey)
    requires
        op_key(op) != k2,
    ensures
        map_count(step_map(m, op), k2) == map_count(m, k2),
        step_map(m, op).dom().contains(k2) == m.dom().contains(k2),
{
}

/// A whole history of operations, none of them about `k2`, leaves `k2`'s
/// count and presence exactly as they were.
pub proof fn lemma_run_isolated(m: Map<ConnectionKey, nat>, ops: Seq<AccountOp>, k2: ConnectionKey)
    requires
        forall|i: int| 0 <= i < ops.len() ==> op_key(#[trigger] ops[i]) != k2,
    ensures
        map_count(run_map(m, ops), k2) == map_count(m, k2),
        run_map(m, ops).dom().contains(k2) == m.dom().contains(k2),
    decreases ops.len(),
{
    if ops.len() > 0 {
        lemma_step_isolated(m, ops[0], k2);
        assert(forall|i: int| 0 <= i < ops.skip(1).len() ==> op_key(#[trigger] ops.skip(1)[i]) != k2);
        lemma_run_isolated(step_map(m, ops[0]), ops.skip(1), k2);
    }
}

/// Positive counts are an invariant of every history: an increase inserts at
/// one or more, a decrease removes an entry rather than leave it at zero.
pub proof fn lemma_positive_counts_preserved(m: Map<ConnectionKey, nat>, ops: Seq<AccountOp>)
    requires
        positive_counts(m),
    ensures
        positive_counts(run_map(m, ops)),
    decreases ops.len(),
{
    if ops.len() > 0 {
        let m1 = step_map(m, ops[0]);
        assert(positive_counts(m1)) by {
            assert forall|k: ConnectionKey| m1.dom().contains(k) implies m1[k] >= 1 by {
                if m.dom().contains(k) {
                    assert(m[k] >= 1);
                }
            }
        }
        lemma_positive_counts_preserved(m1, ops.skip(1));
    }
}

/// The counting law: over any serialized history that never decreases `k`
/// below zero, `k`'s count moves by exactly the number of increases of `k`
/// minus the number of decreases of `k`.
pub proof fn lemma_accounting_consistency(
    m: Map<ConnectionKey, nat>,
    ops: Seq<AccountOp>,
    k: ConnectionKey,
)
    requires
        never_underflows(map_count(m, k), ops, k),
    ensures
        map_count(run_map(m, ops), k) + num_decreases(ops, k)
            == map_count(m, k) + num_increases(ops, k),
    decreases ops.len(),
{
    if ops.len() > 0 {
        let m1 = step_map(m, ops[0]);
        if ops[0] == AccountOp::Increase(k) {
            assert(map_count(m1, k) == map_count(m, k) + 1);
        } else if ops[0] == AccountOp::Decrease(k) {
            assert(map_count(m, k) >= 1);
            assert(map_count(m1, k) == map_count(m, k) - 1);
        } else {
            lemma_step_isolated(m, ops[0], k);
        }
        lemma_accounting_consistency(m1, ops.skip(1), k);
    }
}

/// For a key that starts absent: after N increases and M decreases of it in
/// any serialized order in which no decrease overtakes its increase, the
/// table reports exactly N − M open connections, and when N == M the entry
/// is gone altogether.
pub proof fn lemma_snapshot_after_balanced_run(ops: Seq<AccountOp>, k: ConnectionKey)
    requires
        never_underflows(0, ops, k),
    ensures
        map_count(run_map(Map::empty(), ops), k) + num_decreases(ops, k) == num_increases(ops, k),
        num_increases(ops, k) == num_decreases(ops, k)
            ==> !run_map(Map::empty(), ops).dom().contains(k),
{
    let m0 = Map::<ConnectionKey, nat>::empty();
    lemma_accounting_consistency(m0, ops, k);
    lemma_positive_counts_preserved(m0, ops);
}

/// Two rules with distinct relay addresses cannot touch each other's table
/// entries: a history issued entirely under one relay address leaves every
/// key of any other relay address exactly as it was.
pub proof fn lemma_rules_do_not_interfere(
    m: Map<ConnectionKey, nat>,
    ops: Seq<AccountOp>,
    relay: SocketAddress,
    k2: ConnectionKey,
)
    requires
        forall|i: int| 0 <= i < ops.len() ==> op_key(#[trigger] ops[i]).relay_server == relay,
        k2.relay_server != relay,
    ensures
        map_count(run_map(m, ops), k2) == map_count(m, k2),
        run_map(m, ops).dom().contains(k2) == m.dom().contains(k2),
{
    assert forall|i: int| 0 <= i < ops.len() implies op_key(#[trigger] ops[i]) != k2 by {
        crate::flow::lemma_rules_make_distinct_keys(op_key(ops[i]), k2);
    }
    lemma_run_isolated(m, ops, k2);
}

} // verus!

//! The life of one relayed connection, and the per-rule accept policy.
//!
//! For an accepted client connection the relay dials the target, and only on
//! success does it register the flow with the accounting table, run the copy
//! session, and deregister exactly once on the way out — whether the session
//! closed cleanly or failed. [`RelayLifecycle`] is that protocol: each step
//! says which accounting operation to issue, and a ghost log of everything
//! issued so far ties the protocol to the accounting model.
//!
//! The surrounding process performs the dial, the copying and the sends to
//! the accounting worker; it reports each outcome here and forwards each
//! returned operation, wrapping the relay body so the closing step runs on
//! every exit path.

use vstd::prelude::*;
use crate::addr::IpAddress;
use crate::flow::{ConnectionKey, Rule};
use crate::accounting::{map_count, positive_counts, run_map, never_underflows, step_map, AccountOp};

verus! {

/// Where one relayed connection stands.
#[derive(Clone, Copy, PartialEq, Eq, Debug, Structural)]
pub enum LifecyclePhase {
    /// Accepted; the dial to the target is in flight.
    Dialing,
    /// The dial failed: the client is dropped and nothing was ever counted.
    Aborted,
    /// The dial succeeded and the flow is registered; the copy session runs.
    Relaying,
    /// The session ended and the flow was deregistered.
    Completed,
}

/// The accounting protocol of one connection, with the ghost log of every
/// operation it has issued.
pub struct RelayLifecycle {
    key: ConnectionKey,
    phase: LifecyclePhase,
    issued: Ghost<Seq<AccountOp>>,
}

impl RelayLifecycle {
    /// The flow class this connection belongs to.
    pub closed spec fn key(self) -> ConnectionKey {
        self.key
    }

    /// The connection's phase.
    pub closed spec fn phase(self) -> LifecyclePhase {
        self.phase
    }

    /// Every accounting operation this connection has issued, in order.
    pub closed spec fn issued(self) -> Seq<AccountOp> {
        self.issued@
    }

    /// The protocol invariant: the log is exactly what the phase dictates —
    /// nothing before a successful dial, one increase while relaying, and
    /// the matching decrease once completed.
    pub closed spec fn wf(self) -> bool {
        match self.phase {
            LifecyclePhase::Dialing => self.issued@ == Seq::<AccountOp>::empty(),
            LifecyclePhase::Aborted => self.issued@ == Seq::<AccountOp>::empty(),
            LifecyclePhase::Relaying => self.issued@ == seq![AccountOp::Increase(self.key)],
            LifecyclePhase::Completed => self.issued@ == seq![
                AccountOp::Increase(self.key),
                AccountOp::Decrease(self.key),
            ],
        }
    }

    /// Starts the lifecycle for a connection accepted from `client` under
    /// `rule`, just before the dial to the rule's target.
    pub fn begin(client: IpAddress, rule: &Rule) -> (lc: RelayLifecycle)
        ensures
            lc.wf(),
            lc.phase() == LifecyclePhase::Dialing,
            lc.key() == (ConnectionKey {
                client,
                relay_server: rule.relay_server,
                target_server: rule.target_server,
            }),
            lc.issued() == Seq::<AccountOp>::empty(),
    {
        RelayLifecycle {
            key: ConnectionKey::from_rule(client, rule),
            phase: LifecyclePhase::Dialing,
            issued: Ghost(Seq::empty()),
        }
    }

    /// The dial failed: the connection is dropped without ever touching the
    /// accounting table, and no bytes are relayed.
    pub fn on_dial_failure(&mut self)
        requires
            old(self).wf(),
            old(self).phase() == LifecyclePhase::Dialing,
        ensures
            final(self).wf(),
            final(self).phase() == LifecyclePhase::Aborted,
            final(self).key() == old(self).key(),
            final(self).issued() == Seq::<AccountOp>::empty(),
    {
        self.phase = LifecyclePhase::Aborted;
    }

    /// The dial succeeded: the flow is registered before any byte is copied.
    /// The returned operation is the one to send to the accounting table.
    pub fn on_dial_success(&mut self) -> (op: AccountOp)
        requires
            old(self).wf(),
            old(self).phase() == LifecyclePhase::Dialing,
        ensures
            final(self).wf(),
            final(self).phase() == LifecyclePhase::Relaying,
            final(self).key() == old(self).key(),
            op == AccountOp::Increase(old(self).key()),
            final(self).issued() == seq![op],
    {
        self.phase = LifecyclePhase::Relaying;
        let op = AccountOp::Increase(self.key);
        self.issued = Ghost(self.issued@.push(op));
        proof {
            assert(self.issued@ =~= seq![op]);
        }
        op
    }

    /// The copy session ended — cleanly or by error, the flow is
    /// deregistered exactly once. The returned operation is the one to send
    /// to the accounting table.
    pub fn on_relay_finished(&mut self) -> (op: AccountOp)
        requires
            old(self).wf(),
            old(self).phase() == LifecyclePhase::Relaying,
        ensures
            final(self).wf(),
            final(self).phase() == LifecyclePhase::Completed,
            final(self).key() == old(self).key(),
            op == AccountOp::Decrease(old(self).key()),
            final(self).issued() == seq![AccountOp::Increase(old(self).key()), op],
    {
        self.phase = LifecyclePhase::Completed;
        let op = AccountOp::Decrease(self.key);
        self.issued = Ghost(self.issued@.push(op));
        proof {
            assert(self.issued@ =~= seq![AccountOp::Increase(self.key), op]);
        }
        op
    }

    /// The connection's phase, as the surrounding process reads it.
    pub fn current_phase(&self) -> (p: LifecyclePhase)
        ensures
            p == self.phase(),
    {
        self.phase
    }
}

/// A connection whose dial failed leaves no trace: it issued no accounting
/// operation at all, so no table, whatever it held, is changed by it.
pub proof fn lemma_aborted_leaves_no_trace(lc: RelayLifecycle, m: Map<ConnectionKey, nat>)
    requires
        lc.wf(),
        lc.phase() == LifecyclePhase::Aborted,
    ensures
        lc.issued().len() == 0,
        run_map(m, lc.issued()) == m,
{
}

/// A connection's own history never decreases its key while that key counts
/// zero, whatever count the table already holds: the decrease, when it
/// exists, sits after the connection's own increase.
pub proof fn lemma_lifecycle_never_underflows(lc: RelayLifecycle, c: nat)
    requires
        lc.wf(),
    ensures
        never_underflows(c, lc.issued(), lc.key()),
{
    let ops = lc.issued();
    let k = lc.key();
    match lc.phase() {
        LifecyclePhase::Dialing => {},
        LifecyclePhase::Aborted => {},
        LifecyclePhase::Relaying => {
            assert(ops.skip(1) =~= Seq::<AccountOp>::empty());
            assert(never_underflows(c + 1, Seq::<AccountOp>::empty(), k));
            assert(never_underflows(c, ops, k));
        },
        LifecyclePhase::Completed => {
            let s1 = ops.skip(1);
            assert(s1 =~= seq![AccountOp::Decrease(k)]);
            assert(s1.skip(1) =~= Seq::<AccountOp>::empty());
            assert(never_underflows(c, Seq::<AccountOp>::empty(), k));
            assert(never_underflows(c + 1, s1, k));
            assert(never_underflows(c, ops, k));
        },
    }
}

/// The release guarantee, settled: a completed connection issued exactly one
/// increase and, after it, exactly one decrease of its own key — so its
/// whole history returns any table with positive counts to exactly the state
/// the connection found it in.
pub proof fn lemma_completed_balances(lc: RelayLifecycle, m: Map<ConnectionKey, nat>)
    requires
        lc.wf(),
        lc.phase() == LifecyclePhase::Completed,
        positive_counts(m),
    ensures
        lc.issued() == seq![AccountOp::Increase(lc.key()), AccountOp::Decrease(lc.key())],
        run_map(m, lc.issued()) == m,
{
    let k = lc.key();
    let ops = lc.issued();
    let c = map_count(m, k);
    let s1 = ops.skip(1);
    assert(s1 =~= seq![AccountOp::Decrease(k)]);
    assert(s1.skip(1) =~= Seq::<AccountOp>::empty());
    let m1 = step_map(m, ops[0]);
    assert(m1 == m.insert(k, c + 1));
    assert(map_count(m1, k) == c + 1);
    let m2 = step_map(m1, s1[0]);
    assert(run_map(m2, Seq::<AccountOp>::empty()) == m2);
    assert(run_map(m1, s1) == m2);
    assert(run_map(m, ops) == m2);
    if c == 0 {
        assert(!m.dom().contains(k));
        assert(m2 == m1.remove(k));
        assert(m2 =~= m);
    } else {
        assert(m.dom().contains(k) && m[k] == c);
        assert(m2 == m1.insert(k, c));
        assert(m2 =~= m);
    }
}

/// What happened on the listening side of one rule.
#[derive(Clone, Copy, PartialEq, Eq, Debug, Structural)]
pub enum ServeEvent {
    /// Binding the rule's listening address failed.
    BindFailed,
    /// A client connection was accepted.
    Accepted,
    /// One accept call failed.
    AcceptFailed,
}

/// What the rule's server does next.
#[derive(Clone, Copy, PartialEq, Eq, Debug, Structural)]
pub enum ServeAction {
    /// Give this rule up; other rules are unaffected.
    AbandonRule,
    /// Start an independent relay instance for the accepted connection and
    /// keep accepting.
    SpawnRelay,
    /// The error was transient: log it and keep accepting.
    KeepAccepting,
}

/// The accept-loop policy of one rule's server: a failed bind abandons only
/// that rule, an accepted connection gets its own relay instance, and a
/// failed accept never terminates the server.
pub fn accept_policy(event: ServeEvent) -> (a: ServeAction)
    ensures
        a == match event {
            ServeEvent::BindFailed => ServeAction::AbandonRule,
            ServeEvent::Accepted => ServeAction::SpawnRelay,
            ServeEvent::AcceptFailed => ServeAction::KeepAccepting,
        },
{
    match event {
        ServeEvent::BindFailed => ServeAction::AbandonRule,
        ServeEvent::Accepted => ServeAction::SpawnRelay,
        ServeEvent::AcceptFailed => ServeAction::KeepAccepting,
    }
}

} // verus!

//! Flow identification: relay rules and the key that names a flow class.
//!
//! A flow class is the set of connections sharing one
//! (client host, relay address, target address) triple; the accounting
//! table counts open connections per flow class.

use vstd::prelude::*;
use crate::addr::{IpAddress, SocketAddress};

verus! {

/// One relay rule: listen at `relay_server`, forward to `target_server`.
/// Rules are fixed at startup and never change.
#[derive(Clone, Copy, PartialEq, Eq, Hash, Debug, Structural)]
pub struct Rule {
    pub relay_server: SocketAddress,
    pub target_server: SocketAddress,
}

/// Identifies a flow class by client host, relay address and target address.
/// Equality is structural over all three fields, so two connections from the
/// same client host through the same rule share one key.
#[derive(Clone, Copy, PartialEq, Eq, Hash, Debug, Structural)]
pub struct ConnectionKey {
    pub client: IpAddress,
    pub relay_server: SocketAddress,
    pub target_server: SocketAddress,
}

impl ConnectionKey {
    /// Builds the key for a connection accepted from `client` under `rule`.
    pub fn from_rule(client: IpAddress, rule: &Rule) -> (r: ConnectionKey)
        ensures
            r.client == client,
            r.relay_server == rule.relay_server,
            r.target_server == rule.target_server,
    {
        ConnectionKey {
            client,
            relay_server: rule.relay_server,
            target_server: rule.target_server,
        }
    }
}

/// Keys built under rules with distinct relay addresses are themselves
/// distinct, whatever the clients: a rule can only ever touch table entries
/// that carry its own relay address.
pub proof fn lemma_rules_make_distinct_keys(
    a: ConnectionKey,
    b: ConnectionKey,
)
    requires
        a.relay_server != b.relay_server,
    ensures
        a != b,
{
}

} // verus!

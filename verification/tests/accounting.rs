use relay::accounting::{AccountTable, BookEvent};
use relay::addr::{IpAddress, SocketAddress};
use relay::flow::{ConnectionKey, Rule};

fn relay_addr(port: u16) -> SocketAddress {
    SocketAddress::new(IpAddress::V4(127, 0, 0, 1), port)
}

fn key(client_last_octet: u8, relay_port: u16, target_port: u16) -> ConnectionKey {
    ConnectionKey {
        client: IpAddress::V4(10, 0, 0, client_last_octet),
        relay_server: relay_addr(relay_port),
        target_server: relay_addr(target_port),
    }
}

fn reported_count(t: &AccountTable, k: &ConnectionKey) -> Option<usize> {
    t.snapshot().into_iter().find(|(kk, _)| kk == k).map(|(_, c)| c)
}

#[test]
fn increase_inserts_at_one() {
    let mut t = AccountTable::new();
    let k = key(1, 8080, 80);
    t.increase(k);
    assert_eq!(reported_count(&t, &k), Some(1));
}

#[test]
fn increase_increments_existing_entry() {
    let mut t = AccountTable::new();
    let k = key(1, 8080, 80);
    t.increase(k);
    t.increase(k);
    t.increase(k);
    assert_eq!(reported_count(&t, &k), Some(3));
}

#[test]
fn decrease_decrements() {
    let mut t = AccountTable::new();
    let k = key(1, 8080, 80);
    t.increase(k);
    t.increase(k);
    t.decrease(k);
    assert_eq!(reported_count(&t, &k), Some(1));
}

#[test]
fn decrease_to_zero_removes_entry() {
    let mut t = AccountTable::new();
    let k = key(1, 8080, 80);
    t.increase(k);
    t.decrease(k);
    assert_eq!(reported_count(&t, &k), None);
    assert!(t.snapshot().is_empty());
}

#[test]
fn decrease_before_any_increase_is_absorbed() {
    let mut t = AccountTable::new();
    let k = key(1, 8080, 80);
    t.decrease(k);
    assert_eq!(reported_count(&t, &k), None);
    t.decrease(k);
    t.decrease(k);
    assert!(t.snapshot().is_empty());
    t.increase(k);
    assert_eq!(reported_count(&t, &k), Some(1));
}

#[test]
fn interleaved_increases_and_decreases_balance() {
    // Three opens and two closes of the same flow class, serialized in an
    // order where no close overtakes its open: the table reports 3 - 2 = 1.
    let mut t = AccountTable::new();
    let k = key(1, 8080, 80);
    t.increase(k);
    t.increase(k);
    t.decrease(k);
    t.increase(k);
    t.decrease(k);
    assert_eq!(reported_count(&t, &k), Some(1));
}

#[test]
fn balanced_run_leaves_no_entry() {
    let mut t = AccountTable::new();
    let k = key(1, 8080, 80);
    t.increase(k);
    t.increase(k);
    t.decrease(k);
    t.decrease(k);
    assert_eq!(reported_count(&t, &k), None);
}

#[test]
fn operations_on_one_key_leave_others_alone() {
    let mut t = AccountTable::new();
    let a = key(1, 8080, 80);
    let b = key(2, 8080, 80);
    t.increase(b);
    t.increase(a);
    t.increase(a);
    t.decrease(a);
    assert_eq!(reported_count(&t, &b), Some(1));
    t.decrease(a);
    assert_eq!(reported_count(&t, &a), None);
    assert_eq!(reported_count(&t, &b), Some(1));
}

#[test]
fn same_client_and_rule_share_one_entry() {
    let rule = Rule { relay_server: relay_addr(8080), target_server: relay_addr(80) };
    let client = IpAddress::V4(10, 0, 0, 1);
    let k1 = ConnectionKey::from_rule(client, &rule);
    let k2 = ConnectionKey::from_rule(client, &rule);
    assert_eq!(k1, k2);
    let mut t = AccountTable::new();
    t.increase(k1);
    t.increase(k2);
    assert_eq!(reported_count(&t, &k1), Some(2));
    assert_eq!(t.snapshot().len(), 1);
}

#[test]
fn two_rules_do_not_interfere() {
    // Two rules with distinct relay addresses: a burst of traffic and
    // closures under one never perturbs the other's entry.
    let rule_a = Rule { relay_server: relay_addr(8080), target_server: relay_addr(80) };
    let rule_b = Rule { relay_server: relay_addr(9090), target_server: relay_addr(80) };
    let client = IpAddress::V4(10, 0, 0, 1);
    let ka = ConnectionKey::from_rule(client, &rule_a);
    let kb = ConnectionKey::from_rule(client, &rule_b);
    assert_ne!(ka, kb);
    let mut t = AccountTable::new();
    t.increase(kb);
    t.increase(ka);
    t.increase(ka);
    t.decrease(ka);
    t.decrease(ka);
    t.decrease(ka);
    assert_eq!(reported_count(&t, &kb), Some(1));
    assert_eq!(reported_count(&t, &ka), None);
}

#[test]
fn snapshot_of_empty_table_is_empty_report() {
    let t = AccountTable::new();
    assert_eq!(t.snapshot().len(), 0);
}

#[test]
fn snapshot_is_a_point_in_time_copy() {
    let mut t = AccountTable::new();
    let k = key(1, 8080, 80);
    t.increase(k);
    let rows = t.snapshot();
    t.increase(k);
    assert_eq!(rows, vec![(k, 1)]);
    assert_eq!(reported_count(&t, &k), Some(2));
}

#[test]
fn apply_event_dispatches_like_the_worker() {
    let mut t = AccountTable::new();
    let k = key(1, 8080, 80);
    assert!(t.apply_event(BookEvent::New(k)).is_none());
    assert!(t.apply_event(BookEvent::New(k)).is_none());
    let rows = t.apply_event(BookEvent::ListAll).expect("a snapshot");
    assert_eq!(rows, vec![(k, 2)]);
    assert!(t.apply_event(BookEvent::Disconnect(k)).is_none());
    assert!(t.apply_event(BookEvent::Disconnect(k)).is_none());
    let rows = t.apply_event(BookEvent::ListAll).expect("a snapshot");
    assert!(rows.is_empty());
}

#[test]
fn ipv6_flows_are_counted_apart_from_ipv4() {
    let mut t = AccountTable::new();
    let k4 = key(1, 8080, 80);
    let k6 = ConnectionKey {
        client: IpAddress::V6(0, 0, 0, 0, 0, 0, 0, 1),
        relay_server: relay_addr(8080),
        target_server: relay_addr(80),
    };
    t.increase(k4);
    t.increase(k6);
    assert_eq!(reported_count(&t, &k4), Some(1));
    assert_eq!(reported_count(&t, &k6), Some(1));
    assert_eq!(t.snapshot().len(), 2);
}

use kube_ingress_dns_manager::addr::IpAddress;
use kube_ingress_dns_manager::conf::{HealthCheck, HealthCheckKind, HttpHealthCheck};
use kube_ingress_dns_manager::controller::{Controller, WatchEvent};
use kube_ingress_dns_manager::nodes::{get_node_addresses, NodeAddress, NodeInfo, NodeTable};

fn check(up: usize, down: usize) -> HealthCheck {
    HealthCheck {
        checks_to_up: up,
        checks_to_down: down,
        kind: HealthCheckKind::Http(HttpHealthCheck {
            uri: "/".to_string(),
            port: 80,
            timeout_sec: 3,
            valid_status_codes: vec![200],
        }),
    }
}

fn external(a: IpAddress) -> NodeAddress {
    NodeAddress { kind: "ExternalIP".to_string(), address: Some(a) }
}

fn node(name: &str, unschedulable: Option<bool>, addrs: Vec<NodeAddress>) -> NodeInfo {
    NodeInfo { name: Some(name.to_string()), unschedulable, addresses: Some(addrs) }
}

fn sorted(mut v: Vec<IpAddress>) -> Vec<IpAddress> {
    v.sort_by_key(|a| match a {
        IpAddress::V4(x) => (0u8, *x as u128),
        IpAddress::V6(x) => (1u8, *x),
    });
    v
}

#[test]
fn node_addresses_keep_only_parsed_external_ips() {
    let n = node(
        "n1",
        None,
        vec![
            NodeAddress { kind: "InternalIP".to_string(), address: Some(IpAddress::V4(1)) },
            external(IpAddress::V4(2)),
            NodeAddress { kind: "ExternalIP".to_string(), address: None },
            external(IpAddress::V6(3)),
        ],
    );
    assert_eq!(get_node_addresses(&n), Some(vec![IpAddress::V4(2), IpAddress::V6(3)]));
}

#[test]
fn node_without_external_addresses_has_none() {
    let n = node(
        "n1",
        None,
        vec![NodeAddress { kind: "Hostname".to_string(), address: None }],
    );
    assert_eq!(get_node_addresses(&n), None);
    let no_status = NodeInfo { name: Some("n2".to_string()), unschedulable: None, addresses: None };
    assert_eq!(get_node_addresses(&no_status), None);
}

#[test]
fn node_table_insert_replace_remove() {
    let mut t = NodeTable::new();
    t.insert("a".to_string(), vec![IpAddress::V4(1)]);
    t.insert("b".to_string(), vec![IpAddress::V4(2)]);
    t.insert("a".to_string(), vec![IpAddress::V4(3)]);
    assert_eq!(sorted(t.all_addresses()), vec![IpAddress::V4(2), IpAddress::V4(3)]);
    t.remove(&"b".to_string());
    assert_eq!(t.all_addresses(), vec![IpAddress::V4(3)]);
    t.clear();
    assert!(t.all_addresses().is_empty());
}

#[test]
fn ticks_do_nothing_until_the_listing_is_complete() {
    let mut c = Controller::new(true, Some(check(1, 1)));
    assert!(!c.tick_enabled());
    c.handle_event(WatchEvent::Init);
    c.handle_event(WatchEvent::InitApply(node("n1", None, vec![external(IpAddress::V4(1))])));
    assert!(c.start_tick().is_empty());
    assert!(c.finish_tick(&vec![(IpAddress::V4(1), true)]).is_none());
    c.handle_event(WatchEvent::InitDone);
    assert!(c.tick_enabled());
    assert_eq!(c.start_tick(), vec![IpAddress::V4(1)]);
}

#[test]
fn healthy_addresses_are_published_after_warmup() {
    let mut c = Controller::new(true, Some(check(2, 1)));
    c.handle_event(WatchEvent::Init);
    c.handle_event(WatchEvent::InitApply(node(
        "n1",
        None,
        vec![external(IpAddress::V4(1)), external(IpAddress::V6(9))],
    )));
    c.handle_event(WatchEvent::InitDone);

    // First tick: one success each, still warming up.
    let to_check = sorted(c.start_tick());
    assert_eq!(to_check, vec![IpAddress::V4(1), IpAddress::V6(9)]);
    assert!(c.finish_tick(&vec![(IpAddress::V4(1), true), (IpAddress::V6(9), true)]).is_none());

    // Second tick: both reach two successes, the v6 check fails.
    c.start_tick();
    assert!(c.finish_tick(&vec![(IpAddress::V4(1), true), (IpAddress::V6(9), false)]).is_none());

    // Third tick: warm-up is over, only the healthy v4 address is published.
    c.start_tick();
    let update = c.finish_tick(&vec![]).expect("an update is due");
    assert_eq!(update.v4addrs(), Some(vec![1]));
    assert_eq!(update.v6addrs(), None);
    c.dns_update_finished(update, true);
    assert_eq!(c.dns_state().v4addrs(), &vec![1]);

    // Nothing changed: nothing is sent again.
    c.start_tick();
    assert!(c.finish_tick(&vec![]).is_none());
}

#[test]
fn failed_update_is_sent_again() {
    let mut c = Controller::new(false, None);
    c.handle_event(WatchEvent::InitDone);
    c.handle_event(WatchEvent::Apply(node("n1", None, vec![external(IpAddress::V4(5))])));
    assert!(c.start_tick().is_empty());
    let update = c.finish_tick(&vec![]).expect("an update is due");
    assert_eq!(update.v4addrs(), Some(vec![5]));
    c.dns_update_finished(update, false);
    c.start_tick();
    let again = c.finish_tick(&vec![]).expect("the update is due again");
    assert_eq!(again.v4addrs(), Some(vec![5]));
}

#[test]
fn removed_and_unschedulable_nodes_drop_out() {
    let mut c = Controller::new(true, None);
    c.handle_event(WatchEvent::InitDone);
    c.handle_event(WatchEvent::Apply(node("n1", None, vec![external(IpAddress::V4(1))])));
    c.handle_event(WatchEvent::Apply(node("n2", None, vec![external(IpAddress::V4(2))])));
    let u = c.finish_tick(&vec![]).expect("an update is due");
    assert_eq!(sorted(u.v4addrs().unwrap().into_iter().map(IpAddress::V4).collect()),
        vec![IpAddress::V4(1), IpAddress::V4(2)]);
    c.dns_update_finished(u, true);

    c.handle_event(WatchEvent::Apply(node("n1", Some(true), vec![external(IpAddress::V4(1))])));
    c.handle_event(WatchEvent::Delete(node("n2", None, vec![])));
    let u = c.finish_tick(&vec![]).expect("an update is due");
    assert_eq!(u.v4addrs(), Some(vec![]));
}

#[test]
fn unschedulable_nodes_count_when_not_skipped() {
    let mut c = Controller::new(false, None);
    c.handle_event(WatchEvent::InitDone);
    c.handle_event(WatchEvent::Apply(node("n1", Some(true), vec![external(IpAddress::V4(1))])));
    let u = c.finish_tick(&vec![]).expect("an update is due");
    assert_eq!(u.v4addrs(), Some(vec![1]));
}

#[test]
fn init_clears_the_node_table() {
    let mut c = Controller::new(false, None);
    c.handle_event(WatchEvent::InitDone);
    c.handle_event(WatchEvent::Apply(node("n1", None, vec![external(IpAddress::V4(1))])));
    let u = c.finish_tick(&vec![]).unwrap();
    c.dns_update_finished(u, true);
    c.handle_event(WatchEvent::Init);
    assert!(!c.tick_enabled());
    c.handle_event(WatchEvent::InitDone);
    let u = c.finish_tick(&vec![]).expect("the records are withdrawn");
    assert_eq!(u.v4addrs(), Some(vec![]));
}

#[test]
fn healthy_addresses_are_not_rechecked_when_checks_to_down_is_zero() {
    let mut c = Controller::new(true, Some(check(1, 0)));
    c.handle_event(WatchEvent::InitDone);
    c.handle_event(WatchEvent::Apply(node("n1", None, vec![external(IpAddress::V4(1))])));
    assert_eq!(c.start_tick(), vec![IpAddress::V4(1)]);
    assert!(c.finish_tick(&vec![(IpAddress::V4(1), true)]).is_none());
    assert!(c.start_tick().is_empty());
    let u = c.finish_tick(&vec![]).expect("an update is due");
    assert_eq!(u.v4addrs(), Some(vec![1]));
}

#[test]
fn results_for_unchecked_healthy_addresses_are_ignored() {
    let mut c = Controller::new(true, Some(check(1, 0)));
    c.handle_event(WatchEvent::InitDone);
    c.handle_event(WatchEvent::Apply(node("n1", None, vec![external(IpAddress::V4(1))])));
    assert_eq!(c.start_tick(), vec![IpAddress::V4(1)]);
    assert!(c.finish_tick(&vec![(IpAddress::V4(1), true)]).is_none());
    assert!(c.start_tick().is_empty());
    // A failure handed in for the address that was not asked for changes nothing.
    let u = c.finish_tick(&vec![(IpAddress::V4(1), false)]).expect("an update is due");
    assert_eq!(u.v4addrs(), Some(vec![1]));
    assert_eq!(c.healthy_addresses(), vec![IpAddress::V4(1)]);
}

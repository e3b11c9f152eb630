use kube_ingress_dns_manager::addr::IpAddress;
use kube_ingress_dns_manager::address_health::{contains_address, AddressHealth};
use kube_ingress_dns_manager::conf::{HealthCheck, HealthCheckKind, HttpHealthCheck};

fn check(up: usize, down: usize) -> HealthCheck {
    HealthCheck {
        checks_to_up: up,
        checks_to_down: down,
        kind: HealthCheckKind::Http(HttpHealthCheck {
            uri: "/".to_string(),
            port: 80,
            timeout_sec: 3,
            valid_status_codes: vec![200],
        }),
    }
}

#[test]
fn reconcile_keeps_known_health_and_adds_new_addresses_unhealthy() {
    let p = check(1, 2);
    let mut h = AddressHealth::new();
    h.reconcile(&vec![IpAddress::V4(1), IpAddress::V4(2)]);
    h.apply_results(&vec![(IpAddress::V4(1), true)], &p);
    assert_eq!(h.up_addresses(), vec![IpAddress::V4(1)]);

    h.reconcile(&vec![IpAddress::V4(1), IpAddress::V4(3), IpAddress::V4(3)]);
    assert_eq!(h.up_addresses(), vec![IpAddress::V4(1)]);
    let mut all = h.addresses_to_check(&p);
    all.sort_by_key(|a| match a {
        IpAddress::V4(x) => *x as u128,
        IpAddress::V6(x) => *x,
    });
    assert_eq!(all, vec![IpAddress::V4(1), IpAddress::V4(3)]);
}

#[test]
fn results_for_unwatched_addresses_are_ignored() {
    let p = check(1, 1);
    let mut h = AddressHealth::new();
    h.reconcile(&vec![IpAddress::V6(7)]);
    h.apply_results(&vec![(IpAddress::V6(8), true)], &p);
    assert!(h.up_addresses().is_empty());
    assert_eq!(h.addresses_to_check(&p), vec![IpAddress::V6(7)]);
}

#[test]
fn healthy_addresses_are_skipped_when_checks_to_down_is_zero() {
    let p = check(1, 0);
    let mut h = AddressHealth::new();
    h.reconcile(&vec![IpAddress::V4(1), IpAddress::V4(2)]);
    h.apply_results(&vec![(IpAddress::V4(1), true)], &p);
    assert_eq!(h.addresses_to_check(&p), vec![IpAddress::V4(2)]);
}

#[test]
fn results_apply_in_order() {
    let p = check(2, 1);
    let mut h = AddressHealth::new();
    h.reconcile(&vec![IpAddress::V4(1)]);
    h.apply_results(&vec![(IpAddress::V4(1), true), (IpAddress::V4(1), true)], &p);
    assert_eq!(h.up_addresses(), vec![IpAddress::V4(1)]);
    h.apply_results(&vec![(IpAddress::V4(1), false)], &p);
    assert!(h.up_addresses().is_empty());
}

#[test]
fn contains_address_finds_members() {
    let v = vec![IpAddress::V4(1), IpAddress::V6(1)];
    assert!(contains_address(&v, IpAddress::V6(1)));
    assert!(!contains_address(&v, IpAddress::V6(2)));
    assert!(IpAddress::V4(1).is_v4());
    assert!(!IpAddress::V6(1).is_v4());
}

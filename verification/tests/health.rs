use kube_ingress_dns_manager::addr::IpAddress;
use kube_ingress_dns_manager::conf::{
    decimal_string, default_5, default_http_port, default_true, HealthCheck, HealthCheckKind, HttpHealthCheck,
};
use kube_ingress_dns_manager::health::Health;

fn policy(up: usize, down: usize) -> HealthCheck {
    HealthCheck {
        checks_to_up: up,
        checks_to_down: down,
        kind: HealthCheckKind::Http(HttpHealthCheck {
            uri: "/".to_string(),
            port: 80,
            timeout_sec: 3,
            valid_status_codes: vec![200],
        }),
    }
}

#[test]
fn default_health_is_unhealthy_with_no_successes() {
    let h = Health::default();
    assert_eq!(h, Health::Unhealthy { successes: 0 });
    assert!(!h.is_up());
}

#[test]
fn is_up_tells_variants_apart() {
    assert!(Health::Healthy { failures: 2 }.is_up());
    assert!(!Health::Unhealthy { successes: 2 }.is_up());
}

#[test]
fn three_successes_make_an_address_healthy() {
    let p = policy(3, 3);
    let h1 = Health::default().add_result(true, &p);
    assert_eq!(h1, Health::Unhealthy { successes: 1 });
    let h2 = h1.add_result(true, &p);
    assert_eq!(h2, Health::Unhealthy { successes: 2 });
    assert!(!h2.is_up());
    let h3 = h2.add_result(true, &p);
    assert_eq!(h3, Health::Healthy { failures: 0 });
    assert!(h3.is_up());
}

#[test]
fn a_failure_resets_the_success_count() {
    let p = policy(3, 3);
    let h = Health::Unhealthy { successes: 2 }.add_result(false, &p);
    assert_eq!(h, Health::Unhealthy { successes: 0 });
}

#[test]
fn three_failures_make_an_address_unhealthy() {
    let p = policy(3, 3);
    let mut h = Health::Healthy { failures: 0 };
    h = h.add_result(false, &p);
    assert_eq!(h, Health::Healthy { failures: 1 });
    h = h.add_result(false, &p);
    assert_eq!(h, Health::Healthy { failures: 2 });
    h = h.add_result(false, &p);
    assert_eq!(h, Health::Unhealthy { successes: 0 });
}

#[test]
fn a_success_resets_the_failure_count() {
    let p = policy(3, 3);
    assert_eq!(
        Health::Healthy { failures: 2 }.add_result(true, &p),
        Health::Healthy { failures: 0 }
    );
}

#[test]
fn zero_checks_to_down_turns_down_on_one_failure() {
    let p = policy(2, 0);
    assert_eq!(
        Health::Healthy { failures: 0 }.add_result(false, &p),
        Health::Unhealthy { successes: 0 }
    );
}

#[test]
fn zero_checks_to_up_turns_up_on_one_success() {
    let p = policy(0, 1);
    assert_eq!(Health::default().add_result(true, &p), Health::Healthy { failures: 0 });
}

#[test]
fn status_codes_decide_the_outcome() {
    let check = HttpHealthCheck {
        uri: "/healthz".to_string(),
        port: 8080,
        timeout_sec: 1,
        valid_status_codes: vec![200, 204],
    };
    assert!(check.accepts_status(204));
    assert!(!check.accepts_status(500));
    assert!(check.outcome(Some(200)));
    assert!(!check.outcome(Some(404)));
    assert!(!check.outcome(None));
}

#[test]
fn configuration_defaults() {
    assert!(default_true());
    assert_eq!(default_5(), 5);
    assert_eq!(default_http_port(), 80);
}

#[test]
fn health_check_url_brackets_ipv6_hosts() {
    let check = HttpHealthCheck {
        uri: "/healthz".to_string(),
        port: 8080,
        timeout_sec: 1,
        valid_status_codes: vec![200],
    };
    assert_eq!(check.url(IpAddress::V4(0x0a000001), "10.0.0.1"), "http://10.0.0.1:8080/healthz");
    assert_eq!(check.url(IpAddress::V6(1), "::1"), "http://[::1]:8080/healthz");
    let root = HttpHealthCheck { uri: "/".to_string(), port: 80, timeout_sec: 1, valid_status_codes: vec![] };
    assert_eq!(root.url(IpAddress::V4(1), "0.0.0.1"), "http://0.0.0.1:80/");
}

#[test]
fn decimal_strings() {
    assert_eq!(decimal_string(0), "0");
    assert_eq!(decimal_string(7), "7");
    assert_eq!(decimal_string(65535), "65535");
}

#[test]
fn a_zero_update_interval_is_not_valid() {
    use_config_validity();
}

fn use_config_validity() {
    let make = |interval: u64| kube_ingress_dns_manager::conf::Config {
        node_labels: None,
        skip_unschedulable: default_true(),
        update_interval_sec: interval,
        dns: kube_ingress_dns_manager::conf::Dns {
            hostname: "example.com".to_string(),
            ttl: 10,
            provider: kube_ingress_dns_manager::conf::DnsProviderKind::Simulated,
        },
        health_check: None,
    };
    assert!(make(default_5()).is_valid());
    assert!(!make(0).is_valid());
}

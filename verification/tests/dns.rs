use kube_ingress_dns_manager::addr::IpAddress;
use kube_ingress_dns_manager::conf::CloudflareConfig;
use kube_ingress_dns_manager::dns::cloudflare::{
    CloudflareDnsRecord, CloudflareDnsRecordWithId, CloudflareProvider, RecordContent,
};
use kube_ingress_dns_manager::dns::route53::{plan_changes, ChangeAction, RrType};
use kube_ingress_dns_manager::dns::{plan_dns_update, split_families, DnsState};

fn v4(a: u8, b: u8, c: u8, d: u8) -> u32 {
    u32::from_be_bytes([a, b, c, d])
}

fn record(id: &str, content: RecordContent) -> CloudflareDnsRecordWithId {
    CloudflareDnsRecordWithId {
        id: id.to_string(),
        record: CloudflareDnsRecord {
            name: "example.com".to_string(),
            content,
            ttl: 10,
            proxied: true,
        },
    }
}

fn provider() -> CloudflareProvider {
    CloudflareProvider::new(CloudflareConfig {
        zone_id: "zone".to_string(),
        api_token: "token".to_string(),
    })
}

#[test]
fn cloudflare_provider_keeps_its_configuration() {
    let p = provider();
    assert_eq!(p.zone_id(), "zone");
    assert_eq!(p.api_token(), "token");
}

#[test]
fn cloudflare_plan_deletes_stale_and_posts_missing_records() {
    let records = vec![
        record("r1", RecordContent::A { content: v4(10, 0, 0, 1) }),
        record("r2", RecordContent::A { content: v4(10, 0, 0, 2) }),
        record("r3", RecordContent::TXT),
        record("r4", RecordContent::AAAA { content: 1 }),
    ];
    let batch = provider()
        .plan_update(
            &"example.com".to_string(),
            30,
            Some(vec![v4(10, 0, 0, 2), v4(10, 0, 0, 3)]),
            None,
            &records,
        )
        .expect("a change is due");
    let ids: Vec<&str> = batch.deletes.iter().map(|d| d.id.as_str()).collect();
    assert_eq!(ids, vec!["r1"]);
    assert_eq!(batch.posts.len(), 1);
    assert_eq!(batch.posts[0].name, "example.com");
    assert_eq!(batch.posts[0].ttl, 30);
    assert!(batch.posts[0].proxied);
    assert!(matches!(batch.posts[0].content, RecordContent::A { content } if content == v4(10, 0, 0, 3)));
}

#[test]
fn cloudflare_plan_leaves_absent_families_alone() {
    let records = vec![record("r4", RecordContent::AAAA { content: 1 })];
    assert!(provider()
        .plan_update(&"example.com".to_string(), 30, Some(vec![]), None, &records)
        .is_none());
}

#[test]
fn cloudflare_plan_deletes_every_record_of_an_empty_family() {
    let records = vec![
        record("r1", RecordContent::A { content: v4(192, 0, 2, 1) }),
        record("r4", RecordContent::AAAA { content: 1 }),
    ];
    let batch = provider()
        .plan_update(&"example.com".to_string(), 60, Some(vec![]), None, &records)
        .expect("the failed address is removed");
    let ids: Vec<&str> = batch.deletes.iter().map(|d| d.id.as_str()).collect();
    assert_eq!(ids, vec!["r1"]);
    assert!(batch.posts.is_empty());
}

#[test]
fn cloudflare_repeated_plan_after_the_batch_is_empty() {
    let records = vec![
        record("r1", RecordContent::A { content: v4(10, 0, 0, 1) }),
        record("r2", RecordContent::A { content: v4(10, 0, 0, 2) }),
    ];
    let wanted = vec![v4(10, 0, 0, 2), v4(10, 0, 0, 3)];
    let batch = provider()
        .plan_update(&"example.com".to_string(), 30, Some(wanted.clone()), None, &records)
        .expect("a change is due");
    // The zone after the batch: r1 deleted, the new record given ID "n1".
    let mut zone: Vec<CloudflareDnsRecordWithId> = records
        .into_iter()
        .filter(|r| !batch.deletes.iter().any(|d| d.id == r.id))
        .collect();
    for (i, post) in batch.posts.into_iter().enumerate() {
        zone.push(CloudflareDnsRecordWithId { id: format!("n{}", i + 1), record: post });
    }
    assert!(provider()
        .plan_update(&"example.com".to_string(), 30, Some(wanted), None, &zone)
        .is_none());
}

#[test]
fn cloudflare_plan_is_empty_when_records_match() {
    let records = vec![record("r1", RecordContent::A { content: v4(1, 2, 3, 4) })];
    assert!(provider()
        .plan_update(&"example.com".to_string(), 30, Some(vec![v4(1, 2, 3, 4)]), None, &records)
        .is_none());
}

#[test]
fn cloudflare_later_record_for_an_address_wins() {
    let records = vec![
        record("old", RecordContent::AAAA { content: 7 }),
        record("new", RecordContent::AAAA { content: 7 }),
    ];
    let batch = provider()
        .plan_update(&"h".to_string(), 1, None, Some(vec![8]), &records)
        .expect("a change is due");
    assert_eq!(batch.deletes.len(), 1);
    assert_eq!(batch.deletes[0].id, "new");
    assert!(matches!(batch.posts[0].content, RecordContent::AAAA { content: 8 }));
}

#[test]
fn route53_plan_upserts_each_nonempty_family() {
    let changes = plan_changes(
        &"example.com".to_string(),
        60,
        Some(vec![v4(1, 1, 1, 1)]),
        Some(vec![5]),
        &DnsState::new(),
    );
    assert_eq!(changes.len(), 2);
    assert_eq!(changes[0].action, ChangeAction::Upsert);
    assert_eq!(changes[0].rr_type, RrType::A);
    assert_eq!(changes[0].ttl, 60);
    assert_eq!(changes[0].values, vec![IpAddress::V4(v4(1, 1, 1, 1))]);
    assert_eq!(changes[1].rr_type, RrType::Aaaa);
    assert_eq!(changes[1].values, vec![IpAddress::V6(5)]);
}

#[test]
fn route53_plan_skips_empty_families() {
    assert!(plan_changes(&"example.com".to_string(), 60, Some(vec![]), None, &DnsState::new()).is_empty());
    let only_v6 = plan_changes(&"h".to_string(), 60, None, Some(vec![9]), &DnsState::new());
    assert_eq!(only_v6.len(), 1);
    assert_eq!(only_v6[0].rr_type, RrType::Aaaa);
}

#[test]
fn route53_plan_deletes_the_published_set_of_an_empty_family() {
    let mut previous = DnsState::new();
    let update = plan_dns_update(&previous, &vec![IpAddress::V4(v4(192, 0, 2, 1))]);
    previous.record_result(update, true);
    let changes = plan_changes(&"example.com".to_string(), 60, Some(vec![]), None, &previous);
    assert_eq!(changes.len(), 1);
    assert_eq!(changes[0].action, ChangeAction::Delete);
    assert_eq!(changes[0].rr_type, RrType::A);
    assert_eq!(changes[0].ttl, 60);
    assert_eq!(changes[0].values, vec![IpAddress::V4(v4(192, 0, 2, 1))]);
}

#[test]
fn split_families_removes_duplicates() {
    let s = split_families(&vec![
        IpAddress::V4(1),
        IpAddress::V6(2),
        IpAddress::V4(1),
        IpAddress::V4(3),
    ]);
    assert_eq!(s.v4addrs(), &vec![1, 3]);
    assert_eq!(s.v6addrs(), &vec![2]);
}

#[test]
fn dns_update_lists_only_changed_families_and_is_recorded_on_success() {
    let mut state = DnsState::new();
    let update = plan_dns_update(&state, &vec![IpAddress::V4(1)]);
    assert_eq!(update.v4addrs(), Some(vec![1]));
    assert_eq!(update.v6addrs(), None);
    assert!(!update.is_empty());
    state.record_result(update, true);
    assert_eq!(state.v4addrs(), &vec![1]);
    let again = plan_dns_update(&state, &vec![IpAddress::V4(1)]);
    assert!(again.is_empty());
}

#[test]
fn failed_dns_update_leaves_the_state_alone() {
    let mut state = DnsState::new();
    let update = plan_dns_update(&state, &vec![IpAddress::V6(4)]);
    state.record_result(update, false);
    assert!(state.v6addrs().is_empty());
    assert!(!plan_dns_update(&state, &vec![IpAddress::V6(4)]).is_empty());
}

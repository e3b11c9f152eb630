use vstd::prelude::*;

use crate::addr::IpAddress;
use crate::address_health::contains_address;
use crate::assoc::{distinct_keys, has_key};
use crate::conf::CloudflareConfig;
use crate::dns::{v4_addresses, v6_addresses};

verus! {

/// The Cloudflare DNS API, for one zone.
pub struct CloudflareProvider {
    zone_id: String,
    api_token: String,
}

impl CloudflareProvider {
    pub closed spec fn spec_zone_id(&self) -> Seq<char> {
        self.zone_id@
    }

    pub closed spec fn spec_api_token(&self) -> Seq<char> {
        self.api_token@
    }

    pub fn new(config: CloudflareConfig) -> (r: Self)
        ensures
            r.spec_zone_id() == config.zone_id@,
            r.spec_api_token() == config.api_token@,
    {
        CloudflareProvider { zone_id: config.zone_id, api_token: config.api_token }
    }

    pub fn zone_id(&self) -> (r: &String)
        ensures
            r@ == self.spec_zone_id(),
    {
        &self.zone_id
    }

    pub fn api_token(&self) -> (r: &String)
        ensures
            r@ == self.spec_api_token(),
    {
        &self.api_token
    }
}

/// The content of a DNS record; only address records are read.
#[allow(non_camel_case_types, clippy::upper_case_acronyms)]
pub enum RecordContent {
    A { content: u32 },
    AAAA { content: u128 },
    CAA,
    CERT,
    CNAME,
    DNSKEY,
    DS,
    HTTPS,
    LOC,
    MX,
    NAPTR,
    NS,
    OPENPGPKEY,
    PTR,
    SMIMEA,
    SRV,
    SSHFP,
    SVCB,
    TLSA,
    TXT,
    URI,
}

/// A DNS record as the API lists and creates it.
pub struct CloudflareDnsRecord {
    pub name: String,
    pub content: RecordContent,
    pub ttl: u32,
    pub proxied: bool,
}

/// A listed DNS record with its ID.
pub struct CloudflareDnsRecordWithId {
    pub id: String,
    pub record: CloudflareDnsRecord,
}

/// A record to delete, by ID.
pub struct CloudflareRecordDelete {
    pub id: String,
}

/// One batch request: records to delete and records to create.
pub struct CloudflareBatchRecordUpdate {
    pub deletes: Vec<CloudflareRecordDelete>,
    pub posts: Vec<CloudflareDnsRecord>,
}

/// The address record content for `a`.
pub open spec fn spec_content_of(a: IpAddress) -> RecordContent {
    match a {
        IpAddress::V4(x) => RecordContent::A { content: x },
        IpAddress::V6(x) => RecordContent::AAAA { content: x },
    }
}

/// The address an address record holds, for the family asked for.
pub open spec fn record_address(c: RecordContent, v6: bool) -> Option<IpAddress> {
    match c {
        RecordContent::A { content } => if v6 {
            None
        } else {
            Some(IpAddress::V4(content))
        },
        RecordContent::AAAA { content } => if v6 {
            Some(IpAddress::V6(content))
        } else {
            None
        },
        _ => None,
    }
}

/// Sets key `k` of the pair list to `v`, in place where it is present and
/// at the end otherwise.
pub open spec fn upsert<K, V>(s: Seq<(K, V)>, k: K, v: V) -> Seq<(K, V)> {
    if has_key(s, k) {
        s.update(choose|i: int| 0 <= i < s.len() && s[i].0 == k, (k, v))
    } else {
        s.push((k, v))
    }
}

/// The existing records of one family as address/ID pairs: each address
/// once, in the order the records first list it, with the ID of its last
/// record.
pub open spec fn family_ids(records: Seq<CloudflareDnsRecordWithId>, v6: bool) -> Seq<
    (IpAddress, Seq<char>),
>
    decreases records.len(),
{
    if records.len() == 0 {
        Seq::empty()
    } else {
        let prev = family_ids(records.drop_last(), v6);
        match record_address(records.last().record.content, v6) {
            None => prev,
            Some(a) => upsert(prev, a, records.last().id@),
        }
    }
}

/// The new addresses that get a record: those that no existing record
/// holds, and repeated ones after their first occurrence.
pub open spec fn posted_addresses(new: Seq<IpAddress>, existing: Seq<(IpAddress, Seq<char>)>) -> Seq<
    IpAddress,
>
    decreases new.len(),
{
    if new.len() == 0 {
        Seq::empty()
    } else {
        let prev = posted_addresses(new.drop_last(), existing);
        let a = new.last();
        if has_key(existing, a) && !new.drop_last().contains(a) {
            prev
        } else {
            prev.push(a)
        }
    }
}

/// The IDs of the existing records whose address is not among the new ones.
pub open spec fn deleted_ids(existing: Seq<(IpAddress, Seq<char>)>, new: Seq<IpAddress>) -> Seq<
    Seq<char>,
>
    decreases existing.len(),
{
    if existing.len() == 0 {
        Seq::empty()
    } else {
        let prev = deleted_ids(existing.drop_last(), new);
        if new.contains(existing.last().0) {
            prev
        } else {
            prev.push(existing.last().1)
        }
    }
}

/// `r` is the record to create for address `a`.
pub open spec fn is_record_for(r: CloudflareDnsRecord, hostname: Seq<char>, ttl: u32, a: IpAddress) -> bool {
    &&& r.name@ == hostname
    &&& r.content == spec_content_of(a)
    &&& r.ttl == ttl
    &&& r.proxied
}

/// The address record content for `a`.
pub fn content_of(a: IpAddress) -> (r: RecordContent)
    ensures
        r == spec_content_of(a),
{
    match a {
        IpAddress::V4(x) => RecordContent::A { content: x },
        IpAddress::V6(x) => RecordContent::AAAA { content: x },
    }
}

spec fn pairs_view(v: Seq<(IpAddress, String)>) -> Seq<(IpAddress, Seq<char>)> {
    Seq::new(v.len(), |i: int| (v[i].0, v[i].1@))
}

/// The existing records of one family as address/ID pairs.
fn existing_ids(records: &Vec<CloudflareDnsRecordWithId>, v6: bool) -> (r: Vec<(IpAddress, String)>)
    ensures
        pairs_view(r@) == family_ids(records@, v6),
        distinct_keys(pairs_view(r@)),
{
    let mut out: Vec<(IpAddress, String)> = Vec::new();
    let n = records.len();
    let mut i: usize = 0;
    while i < n
        invariant
            n == records@.len(),
            i <= n,
            pairs_view(out@) == family_ids(records@.subrange(0, i as int), v6),
            distinct_keys(pairs_view(out@)),
        decreases n - i,
    {
        let rec = &records[i];
        assert(records@.subrange(0, i + 1).drop_last() =~= records@.subrange(0, i as int));
        assert(records@.subrange(0, i + 1).last() == records@[i as int]);
        let found: Option<IpAddress> = match rec.record.content {
            RecordContent::A { content } => if v6 {
                None
            } else {
                Some(IpAddress::V4(content))
            },
            RecordContent::AAAA { content } => if v6 {
                Some(IpAddress::V6(content))
            } else {
                None
            },
            _ => None,
        };
        match found {
            None => {},
            Some(a) => {
                let ghost before = pairs_view(out@);
                let m = out.len();
                let mut j: usize = 0;
                let mut at: Option<usize> = None;
                while j < m
                    invariant
                        m == out@.len(),
                        j <= m,
                        before == pairs_view(out@),
                        at is None ==> forall|k: int| 0 <= k < j ==> before[k].0 != a,
                        at is Some ==> at->0 < m && before[at->0 as int].0 == a,
                    decreases m - j,
                {
                    if at.is_none() && out[j].0 == a {
                        at = Some(j);
                    }
                    j = j + 1;
                }
                let id = rec.id.clone();
                match at {
                    Some(k) => {
                        out.set(k, (a, id));
                        proof {
                            assert(has_key(before, a));
                            let c = choose|c: int| 0 <= c < before.len() && before[c].0 == a;
                            assert(c == k);
                            assert(pairs_view(out@) =~= before.update(k as int, (a, rec.id@)));
                            assert forall|x: int, y: int|
                                0 <= x < pairs_view(out@).len() && 0 <= y < pairs_view(out@).len()
                                    && x != y implies pairs_view(out@)[x].0 != pairs_view(out@)[y].0 by {
                                assert(pairs_view(out@)[x].0 == before[x].0);
                                assert(pairs_view(out@)[y].0 == before[y].0);
                            }
                        }
                    },
                    None => {
                        out.push((a, id));
                        proof {
                            assert(!has_key(before, a));
                            assert(pairs_view(out@) =~= before.push((a, rec.id@)));
                            assert forall|x: int, y: int|
                                0 <= x < pairs_view(out@).len() && 0 <= y < pairs_view(out@).len()
                                    && x != y implies pairs_view(out@)[x].0 != pairs_view(out@)[y].0 by {
                                if x < before.len() && y < before.len() {
                                    assert(pairs_view(out@)[x].0 == before[x].0);
                                    assert(pairs_view(out@)[y].0 == before[y].0);
                                } else if x < before.len() {
                                    assert(pairs_view(out@)[x].0 == before[x].0);
                                } else {
                                    assert(pairs_view(out@)[y].0 == before[y].0);
                                }
                            }
                        }
                    },
                }
            },
        }
        i = i + 1;
    }
    assert(records@.subrange(0, n as int) =~= records@);
    out
}

fn has_address(existing: &Vec<(IpAddress, String)>, a: IpAddress) -> (r: bool)
    ensures
        r == has_key(pairs_view(existing@), a),
{
    let n = existing.len();
    let mut i: usize = 0;
    while i < n
        invariant
            n == existing@.len(),
            i <= n,
            forall|k: int| 0 <= k < i ==> existing@[k].0 != a,
        decreases n - i,
    {
        if existing[i].0 == a {
            assert(pairs_view(existing@)[i as int].0 == a);
            return true;
        }
        i = i + 1;
    }
    proof {
        if has_key(pairs_view(existing@), a) {
            let k = choose|k: int| 0 <= k < pairs_view(existing@).len() && pairs_view(existing@)[k].0 == a;
            assert(existing@[k].0 == a);
        }
    }
    false
}

fn prefix_contains(v: &Vec<IpAddress>, end: usize, a: IpAddress) -> (r: bool)
    requires
        end <= v@.len(),
    ensures
        r == v@.subrange(0, end as int).contains(a),
{
    let mut i: usize = 0;
    while i < end
        invariant
            end <= v@.len(),
            i <= end,
            forall|k: int| 0 <= k < i ==> v@[k] != a,
        decreases end - i,
    {
        if v[i] == a {
            assert(v@.subrange(0, end as int)[i as int] == a);
            return true;
        }
        i = i + 1;
    }
    proof {
        if v@.subrange(0, end as int).contains(a) {
            let k = choose|k: int| 0 <= k < end && v@.subrange(0, end as int)[k] == a;
            assert(v@[k] == a);
        }
    }
    false
}

/// `after` is `before` followed by records for `addrs`.
pub open spec fn posts_extended(
    before: Seq<CloudflareDnsRecord>,
    after: Seq<CloudflareDnsRecord>,
    hostname: Seq<char>,
    ttl: u32,
    addrs: Seq<IpAddress>,
) -> bool {
    &&& after.len() == before.len() + addrs.len()
    &&& forall|j: int| 0 <= j < before.len() ==> after[j] == before[j]
    &&& forall|j: int|
        0 <= j < addrs.len() ==> is_record_for(after[before.len() + j], hostname, ttl, addrs[j])
}

/// `after` is `before` followed by deletions of `ids`.
pub open spec fn deletes_extended(
    before: Seq<CloudflareRecordDelete>,
    after: Seq<CloudflareRecordDelete>,
    ids: Seq<Seq<char>>,
) -> bool {
    &&& after.len() == before.len() + ids.len()
    &&& forall|j: int| 0 <= j < before.len() ==> after[j] == before[j]
    &&& forall|j: int| 0 <= j < ids.len() ==> after[before.len() + j].id@ == ids[j]
}

/// Adds to the batch what it takes to make one family's records hold
/// exactly `new_addrs`: deletions of the records whose address is not
/// wanted, and records for the wanted addresses that none holds.  An empty
/// list deletes every record of the family; nothing is added where
/// `new_addrs` is absent.
fn compute_changes(
    hostname: &String,
    ttl: u32,
    new_addrs: Option<Vec<IpAddress>>,
    existing: &Vec<(IpAddress, String)>,
    deletes: &mut Vec<CloudflareRecordDelete>,
    posts: &mut Vec<CloudflareDnsRecord>,
)
    ensures
        match new_addrs {
            Some(v) => {
                &&& posts_extended(
                    old(posts)@,
                    final(posts)@,
                    hostname@,
                    ttl,
                    posted_addresses(v@, pairs_view(existing@)),
                )
                &&& deletes_extended(
                    old(deletes)@,
                    final(deletes)@,
                    deleted_ids(pairs_view(existing@), v@),
                )
            },
            None => final(posts)@ == old(posts)@ && final(deletes)@ == old(deletes)@,
        },
{
    let new_addrs = match new_addrs {
        Some(a) => a,
        None => {
            return;
        },
    };
    let ghost ex = pairs_view(existing@);
    let ghost posts0 = posts@;
    let ghost deletes0 = deletes@;
    let n = new_addrs.len();
    let mut i: usize = 0;
    while i < n
        invariant
            n == new_addrs@.len(),
            i <= n,
            ex == pairs_view(existing@),
            deletes@ == deletes0,
            posts_extended(
                posts0,
                posts@,
                hostname@,
                ttl,
                posted_addresses(new_addrs@.subrange(0, i as int), ex),
            ),
        decreases n - i,
    {
        let a = new_addrs[i];
        let ghost s1 = new_addrs@.subrange(0, i + 1);
        assert(s1.drop_last() =~= new_addrs@.subrange(0, i as int));
        assert(s1.last() == a);
        let ghost before = posts@;
        if !(has_address(existing, a) && !prefix_contains(&new_addrs, i, a)) {
            posts.push(CloudflareDnsRecord {
                name: hostname.clone(),
                content: content_of(a),
                ttl,
                proxied: true,
            });
            proof {
                let p = posted_addresses(s1, ex);
                assert forall|j: int| 0 <= j < p.len() implies is_record_for(
                    posts@[posts0.len() + j],
                    hostname@,
                    ttl,
                    p[j],
                ) by {
                    if j < p.len() - 1 {
                        assert(posts@[posts0.len() + j] == before[posts0.len() + j]);
                    }
                }
            }
        }
        i = i + 1;
    }
    assert(new_addrs@.subrange(0, n as int) =~= new_addrs@);
    let m = existing.len();
    let mut k: usize = 0;
    while k < m
        invariant
            m == existing@.len(),
            k <= m,
            ex == pairs_view(existing@),
            deletes_extended(
                deletes0,
                deletes@,
                deleted_ids(ex.subrange(0, k as int), new_addrs@),
            ),
        decreases m - k,
    {
        let ghost t1 = ex.subrange(0, k + 1);
        assert(t1.drop_last() =~= ex.subrange(0, k as int));
        assert(t1.last() == ex[k as int]);
        let ghost before = deletes@;
        if !contains_address(&new_addrs, existing[k].0) {
            deletes.push(CloudflareRecordDelete { id: existing[k].1.clone() });
            proof {
                let d = deleted_ids(t1, new_addrs@);
                assert forall|j: int| 0 <= j < d.len() implies deletes@[deletes0.len() + j].id@ == d[j] by {
                    if j < d.len() - 1 {
                        assert(deletes@[deletes0.len() + j] == before[deletes0.len() + j]);
                    }
                }
            }
        }
        k = k + 1;
    }
    assert(ex.subrange(0, m as int) =~= ex);
}

/// The records to create for one family.
pub open spec fn family_posts(
    new: Option<Seq<IpAddress>>,
    records: Seq<CloudflareDnsRecordWithId>,
    v6: bool,
) -> Seq<IpAddress> {
    match new {
        Some(v) => posted_addresses(v, family_ids(records, v6)),
        None => Seq::empty(),
    }
}

/// The record IDs to delete for one family.
pub open spec fn family_deletes(
    new: Option<Seq<IpAddress>>,
    records: Seq<CloudflareDnsRecordWithId>,
    v6: bool,
) -> Seq<Seq<char>> {
    match new {
        Some(v) => deleted_ids(family_ids(records, v6), v),
        None => Seq::empty(),
    }
}

/// The IPv4 numbers as addresses, where given.
pub open spec fn v4_option(v: Option<Vec<u32>>) -> Option<Seq<IpAddress>> {
    match v {
        Some(l) => Some(l@.map_values(|x: u32| IpAddress::V4(x))),
        None => None,
    }
}

/// The IPv6 numbers as addresses, where given.
pub open spec fn v6_option(v: Option<Vec<u128>>) -> Option<Seq<IpAddress>> {
    match v {
        Some(l) => Some(l@.map_values(|x: u128| IpAddress::V6(x))),
        None => None,
    }
}

impl CloudflareProvider {
    /// Given the records the zone lists for the hostname, the batch that
    /// makes its A and AAAA records hold the given addresses (a family given
    /// as absent is left alone; one given as empty loses all its records),
    /// or nothing where no change is due.
    pub fn plan_update(
        &self,
        hostname: &String,
        ttl: u32,
        v4_addrs: Option<Vec<u32>>,
        v6_addrs: Option<Vec<u128>>,
        records: &Vec<CloudflareDnsRecordWithId>,
    ) -> (r: Option<CloudflareBatchRecordUpdate>)
        ensures
            ({
                let p = family_posts(v4_option(v4_addrs), records@, false) + family_posts(
                    v6_option(v6_addrs),
                    records@,
                    true,
                );
                let d = family_deletes(v4_option(v4_addrs), records@, false) + family_deletes(
                    v6_option(v6_addrs),
                    records@,
                    true,
                );
                &&& (r is None <==> p.len() == 0 && d.len() == 0)
                &&& r is Some ==> posts_extended(Seq::empty(), r->0.posts@, hostname@, ttl, p)
                    && deletes_extended(Seq::empty(), r->0.deletes@, d)
            }),
    {
        let existing_v4 = existing_ids(records, false);
        let existing_v6 = existing_ids(records, true);
        let new_v4 = match &v4_addrs {
            Some(v) => Some(v4_addresses(v)),
            None => None,
        };
        let new_v6 = match &v6_addrs {
            Some(v) => Some(v6_addresses(v)),
            None => None,
        };
        let mut deletes: Vec<CloudflareRecordDelete> = Vec::new();
        let mut posts: Vec<CloudflareDnsRecord> = Vec::new();
        compute_changes(hostname, ttl, new_v4, &existing_v4, &mut deletes, &mut posts);
        let ghost posts1 = posts@;
        let ghost deletes1 = deletes@;
        compute_changes(hostname, ttl, new_v6, &existing_v6, &mut deletes, &mut posts);
        let ghost p4 = family_posts(v4_option(v4_addrs), records@, false);
        let ghost p6 = family_posts(v6_option(v6_addrs), records@, true);
        let ghost d4 = family_deletes(v4_option(v4_addrs), records@, false);
        let ghost d6 = family_deletes(v6_option(v6_addrs), records@, true);
        proof {
            assert(posts_extended(Seq::empty(), posts1, hostname@, ttl, p4));
            assert(posts_extended(posts1, posts@, hostname@, ttl, p6));
            assert(deletes_extended(Seq::empty(), deletes1, d4));
            assert(deletes_extended(deletes1, deletes@, d6));
            assert forall|j: int| 0 <= j < (p4 + p6).len() implies is_record_for(
                posts@[j],
                hostname@,
                ttl,
                (p4 + p6)[j],
            ) by {
                if j < p4.len() {
                    assert(posts@[j] == posts1[j]);
                } else {
                    assert(posts@[posts1.len() + (j - p4.len())] == posts@[j]);
                }
            }
            assert forall|j: int| 0 <= j < (d4 + d6).len() implies deletes@[j].id@ == (d4 + d6)[j] by {
                if j < d4.len() {
                    assert(deletes@[j] == deletes1[j]);
                } else {
                    assert(deletes@[deletes1.len() + (j - d4.len())] == deletes@[j]);
                }
            }
        }
        if deletes.len() == 0 && posts.len() == 0 {
            None
        } else {
            Some(CloudflareBatchRecordUpdate { deletes, posts })
        }
    }
}

/// A posted address is always a wanted one, and a wanted address that no
/// existing record holds is always posted: once the batch is applied, the
/// family's records hold exactly the wanted addresses.
pub proof fn lemma_batch_makes_records_match(new: Seq<IpAddress>, existing: Seq<(IpAddress, Seq<char>)>, a: IpAddress)
    ensures
        posted_addresses(new, existing).contains(a) ==> new.contains(a),
        new.contains(a) && !has_key(existing, a) ==> posted_addresses(new, existing).contains(a),
        new.contains(a) <==> (has_key(existing, a) && new.contains(a)) || posted_addresses(
            new,
            existing,
        ).contains(a),
    decreases new.len(),
{
    if new.len() > 0 {
        let init = new.drop_last();
        lemma_batch_makes_records_match(init, existing, a);
        let prev = posted_addresses(init, existing);
        let p = posted_addresses(new, existing);
        if p.contains(a) {
            let k = choose|k: int| 0 <= k < p.len() && p[k] == a;
            if k < prev.len() {
                assert(prev[k] == a);
                assert(prev.contains(a));
                let j = choose|j: int| 0 <= j < init.len() && init[j] == a;
                assert(new[j] == a);
            } else {
                assert(new[new.len() - 1] == a);
            }
        }
        if new.contains(a) && !has_key(existing, a) {
            let j = choose|j: int| 0 <= j < new.len() && new[j] == a;
            if j < new.len() - 1 {
                assert(init[j] == a);
                let k = choose|k: int| 0 <= k < prev.len() && prev[k] == a;
                assert(p[k] == a);
            } else {
                assert(p[p.len() - 1] == a);
            }
        }
    }
}

/// Where the wanted addresses are distinct, no posted address is already
/// held by an existing record, and none is posted twice.
pub proof fn lemma_no_redundant_posts(new: Seq<IpAddress>, existing: Seq<(IpAddress, Seq<char>)>)
    requires
        new.no_duplicates(),
    ensures
        posted_addresses(new, existing).no_duplicates(),
        forall|a: IpAddress| #[trigger] posted_addresses(new, existing).contains(a) ==> !has_key(existing, a),
    decreases new.len(),
{
    if new.len() > 0 {
        let init = new.drop_last();
        let last = new.last();
        assert forall|x: int, y: int| 0 <= x < init.len() && 0 <= y < init.len() && x != y implies init[x] != init[y] by {
            assert(init[x] == new[x] && init[y] == new[y]);
        }
        lemma_no_redundant_posts(init, existing);
        let prev = posted_addresses(init, existing);
        let p = posted_addresses(new, existing);
        assert(!init.contains(last)) by {
            if init.contains(last) {
                let j = choose|j: int| 0 <= j < init.len() && init[j] == last;
                assert(new[j] == new[new.len() - 1]);
            }
        }
        lemma_batch_makes_records_match(init, existing, last);
        assert forall|a: IpAddress| #[trigger] p.contains(a) implies !has_key(existing, a) by {
            let k = choose|k: int| 0 <= k < p.len() && p[k] == a;
            if k < prev.len() {
                assert(prev[k] == a);
                assert(prev.contains(a));
            }
        }
        assert forall|x: int, y: int| 0 <= x < p.len() && 0 <= y < p.len() && x != y implies p[x] != p[y] by {
            if x < prev.len() && y < prev.len() {
                assert(p[x] == prev[x] && p[y] == prev[y]);
            } else if x < prev.len() {
                assert(p[x] == prev[x]);
                assert(prev.contains(p[x]));
            } else {
                assert(p[y] == prev[y]);
                assert(prev.contains(p[y]));
            }
        }
    }
}

/// No two records of the family share an ID.
pub open spec fn distinct_ids(s: Seq<(IpAddress, Seq<char>)>) -> bool {
    forall|i: int, j: int| 0 <= i < s.len() && 0 <= j < s.len() && i != j ==> s[i].1 != s[j].1
}

/// The records whose ID is not among `deleted`, in order.
pub open spec fn kept_records(existing: Seq<(IpAddress, Seq<char>)>, deleted: Seq<Seq<char>>) -> Seq<
    (IpAddress, Seq<char>),
>
    decreases existing.len(),
{
    if existing.len() == 0 {
        Seq::empty()
    } else {
        let prev = kept_records(existing.drop_last(), deleted);
        if deleted.contains(existing.last().1) {
            prev
        } else {
            prev.push(existing.last())
        }
    }
}

/// A family's records once a batch went through: the records not deleted,
/// then the posted addresses with the IDs the zone gave them.
pub open spec fn after_batch(
    existing: Seq<(IpAddress, Seq<char>)>,
    deleted: Seq<Seq<char>>,
    posted: Seq<IpAddress>,
    new_ids: Seq<Seq<char>>,
) -> Seq<(IpAddress, Seq<char>)> {
    kept_records(existing, deleted) + Seq::new(posted.len(), |i: int| (posted[i], new_ids[i]))
}

proof fn lemma_deleted_ids_contains(existing: Seq<(IpAddress, Seq<char>)>, new: Seq<IpAddress>, id: Seq<char>)
    ensures
        deleted_ids(existing, new).contains(id) <==> exists|i: int|
            0 <= i < existing.len() && existing[i].1 == id && !new.contains(existing[i].0),
    decreases existing.len(),
{
    if existing.len() > 0 {
        let init = existing.drop_last();
        lemma_deleted_ids_contains(init, new, id);
        let prev = deleted_ids(init, new);
        let d = deleted_ids(existing, new);
        if d.contains(id) {
            let k = choose|k: int| 0 <= k < d.len() && d[k] == id;
            if k < prev.len() {
                assert(prev[k] == id);
                assert(prev.contains(id));
                let i = choose|i: int| 0 <= i < init.len() && init[i].1 == id && !new.contains(init[i].0);
                assert(existing[i] == init[i]);
            } else {
                assert(existing[existing.len() - 1].1 == id);
            }
        }
        if exists|i: int| 0 <= i < existing.len() && existing[i].1 == id && !new.contains(existing[i].0) {
            let i = choose|i: int| 0 <= i < existing.len() && existing[i].1 == id && !new.contains(existing[i].0);
            if i < existing.len() - 1 {
                assert(init[i] == existing[i]);
                assert(prev.contains(id));
                let k = choose|k: int| 0 <= k < prev.len() && prev[k] == id;
                assert(d[k] == id);
            } else {
                assert(d[d.len() - 1] == id);
            }
        }
    }
}

proof fn lemma_kept_records(existing: Seq<(IpAddress, Seq<char>)>, deleted: Seq<Seq<char>>)
    requires
        distinct_keys(existing),
    ensures
        distinct_keys(kept_records(existing, deleted)),
        forall|p: (IpAddress, Seq<char>)| #[trigger] kept_records(existing, deleted).contains(p) <==> existing.contains(p)
            && !deleted.contains(p.1),
    decreases existing.len(),
{
    if existing.len() > 0 {
        let init = existing.drop_last();
        let last = existing.last();
        assert forall|i: int, j: int| 0 <= i < init.len() && 0 <= j < init.len() && i != j implies init[i].0 != init[j].0 by {
            assert(init[i] == existing[i] && init[j] == existing[j]);
        }
        lemma_kept_records(init, deleted);
        let prev = kept_records(init, deleted);
        let k = kept_records(existing, deleted);
        assert forall|p: (IpAddress, Seq<char>)| #[trigger] k.contains(p) <==> existing.contains(p) && !deleted.contains(p.1) by {
            if k.contains(p) {
                let x = choose|x: int| 0 <= x < k.len() && k[x] == p;
                if x < prev.len() {
                    assert(prev[x] == p);
                    assert(prev.contains(p));
                    let y = choose|y: int| 0 <= y < init.len() && init[y] == p;
                    assert(existing[y] == p);
                } else {
                    assert(existing[existing.len() - 1] == p);
                }
            }
            if existing.contains(p) && !deleted.contains(p.1) {
                let y = choose|y: int| 0 <= y < existing.len() && existing[y] == p;
                if y < existing.len() - 1 {
                    assert(init[y] == p);
                    assert(prev.contains(p));
                    let x = choose|x: int| 0 <= x < prev.len() && prev[x] == p;
                    assert(k[x] == p);
                } else {
                    assert(k[k.len() - 1] == p);
                }
            }
        }
        if !deleted.contains(last.1) {
            assert forall|i: int, j: int| 0 <= i < k.len() && 0 <= j < k.len() && i != j implies k[i].0 != k[j].0 by {
                if i < prev.len() && j < prev.len() {
                    assert(k[i] == prev[i] && k[j] == prev[j]);
                } else if i < prev.len() {
                    assert(k[i] == prev[i]);
                    assert(prev.contains(prev[i]));
                    let y = choose|y: int| 0 <= y < init.len() && init[y] == prev[i];
                    assert(existing[y] == init[y]);
                } else {
                    assert(k[j] == prev[j]);
                    assert(prev.contains(prev[j]));
                    let y = choose|y: int| 0 <= y < init.len() && init[y] == prev[j];
                    assert(existing[y] == init[y]);
                }
            }
        }
    }
}

proof fn lemma_nothing_posted_when_all_held(new: Seq<IpAddress>, zone: Seq<(IpAddress, Seq<char>)>)
    requires
        new.no_duplicates(),
        forall|a: IpAddress| new.contains(a) ==> has_key(zone, a),
    ensures
        posted_addresses(new, zone) == Seq::<IpAddress>::empty(),
    decreases new.len(),
{
    if new.len() > 0 {
        let init = new.drop_last();
        let last = new.last();
        assert forall|x: int, y: int| 0 <= x < init.len() && 0 <= y < init.len() && x != y implies init[x] != init[y] by {
            assert(init[x] == new[x] && init[y] == new[y]);
        }
        assert forall|a: IpAddress| init.contains(a) implies has_key(zone, a) by {
            let j = choose|j: int| 0 <= j < init.len() && init[j] == a;
            assert(new[j] == a);
        }
        lemma_nothing_posted_when_all_held(init, zone);
        assert(new[new.len() - 1] == last);
        assert(has_key(zone, last));
        assert(!init.contains(last)) by {
            if init.contains(last) {
                let j = choose|j: int| 0 <= j < init.len() && init[j] == last;
                assert(new[j] == new[new.len() - 1]);
            }
        }
    }
}

proof fn lemma_nothing_deleted_when_all_wanted(zone: Seq<(IpAddress, Seq<char>)>, new: Seq<IpAddress>)
    requires
        forall|i: int| 0 <= i < zone.len() ==> new.contains(#[trigger] zone[i].0),
    ensures
        deleted_ids(zone, new) == Seq::<Seq<char>>::empty(),
    decreases zone.len(),
{
    if zone.len() > 0 {
        let init = zone.drop_last();
        assert forall|i: int| 0 <= i < init.len() implies new.contains(#[trigger] init[i].0) by {
            assert(init[i] == zone[i]);
        }
        lemma_nothing_deleted_when_all_wanted(init, new);
        assert(new.contains(zone[zone.len() - 1].0));
    }
}

/// Once a batch went through, the family holds exactly the wanted
/// addresses, each in one record, and planning the same update again finds
/// nothing to delete and nothing to post.  This needs the wanted addresses
/// to be distinct and the zone not to hold two records of the family with
/// one address or one ID.
pub proof fn lemma_repeated_plan_is_empty(
    existing: Seq<(IpAddress, Seq<char>)>,
    new: Seq<IpAddress>,
    new_ids: Seq<Seq<char>>,
)
    requires
        distinct_keys(existing),
        distinct_ids(existing),
        new.no_duplicates(),
        new_ids.len() == posted_addresses(new, existing).len(),
    ensures
        ({
            let zone = after_batch(
                existing,
                deleted_ids(existing, new),
                posted_addresses(new, existing),
                new_ids,
            );
            &&& distinct_keys(zone)
            &&& forall|a: IpAddress| has_key(zone, a) <==> new.contains(a)
            &&& posted_addresses(new, zone) == Seq::<IpAddress>::empty()
            &&& deleted_ids(zone, new) == Seq::<Seq<char>>::empty()
        }),
{
    let d = deleted_ids(existing, new);
    let p = posted_addresses(new, existing);
    let k = kept_records(existing, d);
    let q = Seq::new(p.len(), |i: int| (p[i], new_ids[i]));
    let zone = after_batch(existing, d, p, new_ids);
    assert(zone == k + q);
    lemma_kept_records(existing, d);
    lemma_no_redundant_posts(new, existing);
    // A record is kept exactly when its address is wanted.
    assert forall|x: (IpAddress, Seq<char>)| #[trigger] k.contains(x) <==> existing.contains(x) && new.contains(x.0) by {
        lemma_deleted_ids_contains(existing, new, x.1);
        if existing.contains(x) {
            let i = choose|i: int| 0 <= i < existing.len() && existing[i] == x;
            if d.contains(x.1) {
                let j = choose|j: int| 0 <= j < existing.len() && existing[j].1 == x.1 && !new.contains(existing[j].0);
                assert(i == j);
            } else {
                if !new.contains(x.0) {
                    assert(existing[i].1 == x.1 && !new.contains(existing[i].0));
                }
            }
        }
    }
    assert forall|a: IpAddress| has_key(zone, a) <==> new.contains(a) by {
        lemma_batch_makes_records_match(new, existing, a);
        if has_key(zone, a) {
            let i = choose|i: int| 0 <= i < zone.len() && zone[i].0 == a;
            if i < k.len() {
                assert(zone[i] == k[i]);
                assert(k.contains(k[i]));
            } else {
                assert(zone[i] == q[i - k.len()]);
                assert(p[i - k.len()] == a);
                assert(p.contains(a));
            }
        }
        if new.contains(a) {
            if has_key(existing, a) {
                let i = choose|i: int| 0 <= i < existing.len() && existing[i].0 == a;
                assert(existing.contains(existing[i]));
                assert(k.contains(existing[i]));
                let j = choose|j: int| 0 <= j < k.len() && k[j] == existing[i];
                assert(zone[j] == k[j]);
            } else {
                assert(p.contains(a));
                let j = choose|j: int| 0 <= j < p.len() && p[j] == a;
                assert(zone[k.len() + j] == q[j]);
            }
        }
    }
    assert forall|i: int, j: int| 0 <= i < zone.len() && 0 <= j < zone.len() && i != j implies zone[i].0 != zone[j].0 by {
        if i < k.len() && j < k.len() {
            assert(zone[i] == k[i] && zone[j] == k[j]);
        } else if i >= k.len() && j >= k.len() {
            assert(zone[i] == q[i - k.len()] && zone[j] == q[j - k.len()]);
        } else {
            let (x, y) = if i < k.len() { (i, j) } else { (j, i) };
            assert(zone[x] == k[x]);
            assert(k.contains(k[x]));
            let e = choose|e: int| 0 <= e < existing.len() && existing[e] == k[x];
            assert(has_key(existing, k[x].0));
            assert(zone[y] == q[y - k.len()]);
            assert(p.contains(p[y - k.len()]));
        }
    }
    lemma_nothing_posted_when_all_held(new, zone);
    assert forall|i: int| 0 <= i < zone.len() implies new.contains(#[trigger] zone[i].0) by {
        assert(has_key(zone, zone[i].0));
    }
    lemma_nothing_deleted_when_all_wanted(zone, new);
}

/// The repeated plan finds nothing in whatever order the zone lists its
/// records once the batch went through: for every `zone` that holds the
/// same records as `after_batch` (as a multiset), planning the same update
/// again deletes nothing and posts nothing.  Assumptions as for
/// `lemma_repeated_plan_is_empty`.
pub proof fn lemma_repeated_plan_is_empty_in_any_order(
    existing: Seq<(IpAddress, Seq<char>)>,
    new: Seq<IpAddress>,
    new_ids: Seq<Seq<char>>,
    zone: Seq<(IpAddress, Seq<char>)>,
)
    requires
        distinct_keys(existing),
        distinct_ids(existing),
        new.no_duplicates(),
        new_ids.len() == posted_addresses(new, existing).len(),
        zone.to_multiset() == after_batch(
            existing,
            deleted_ids(existing, new),
            posted_addresses(new, existing),
            new_ids,
        ).to_multiset(),
    ensures
        distinct_keys(zone),
        forall|a: IpAddress| has_key(zone, a) <==> new.contains(a),
        posted_addresses(new, zone) == Seq::<IpAddress>::empty(),
        deleted_ids(zone, new) == Seq::<Seq<char>>::empty(),
{
    broadcast use vstd::seq_lib::group_to_multiset_ensures;

    let z = after_batch(existing, deleted_ids(existing, new), posted_addresses(new, existing), new_ids);
    lemma_repeated_plan_is_empty(existing, new, new_ids);
    assert forall|x: (IpAddress, Seq<char>)| zone.contains(x) <==> z.contains(x) by {
        assert(zone.contains(x) <==> zone.to_multiset().count(x) > 0);
        assert(z.contains(x) <==> z.to_multiset().count(x) > 0);
    }
    assert(z.no_duplicates()) by {
        assert forall|i: int, j: int| 0 <= i < z.len() && 0 <= j < z.len() && i != j implies z[i] != z[j] by {
            assert(z[i].0 != z[j].0);
        }
    }
    z.lemma_multiset_has_no_duplicates();
    assert forall|x: (IpAddress, Seq<char>)| zone.to_multiset().contains(x) implies zone.to_multiset().count(x) == 1 by {
        assert(z.to_multiset().contains(x));
    }
    zone.lemma_multiset_has_no_duplicates_conv();
    assert forall|i: int, j: int| 0 <= i < zone.len() && 0 <= j < zone.len() && i != j implies zone[i].0 != zone[j].0 by {
        if zone[i].0 == zone[j].0 {
            assert(zone[i] != zone[j]);
            assert(zone.contains(zone[i]) && zone.contains(zone[j]));
            let p = choose|p: int| 0 <= p < z.len() && z[p] == zone[i];
            let q = choose|q: int| 0 <= q < z.len() && z[q] == zone[j];
            assert(p != q);
        }
    }
    assert forall|a: IpAddress| has_key(zone, a) <==> new.contains(a) by {
        if has_key(zone, a) {
            let i = choose|i: int| 0 <= i < zone.len() && zone[i].0 == a;
            assert(zone.contains(zone[i]));
            let p = choose|p: int| 0 <= p < z.len() && z[p] == zone[i];
            assert(has_key(z, a));
        }
        if new.contains(a) {
            assert(has_key(z, a));
            let p = choose|p: int| 0 <= p < z.len() && z[p].0 == a;
            assert(z.contains(z[p]));
            let i = choose|i: int| 0 <= i < zone.len() && zone[i] == z[p];
        }
    }
    lemma_nothing_posted_when_all_held(new, zone);
    assert forall|i: int| 0 <= i < zone.len() implies new.contains(#[trigger] zone[i].0) by {
        assert(has_key(zone, zone[i].0));
    }
    lemma_nothing_deleted_when_all_wanted(zone, new);
}

/// The family view of a zone lists each address of the family's records
/// once, whatever the records' other fields, and pairs it with the ID of a
/// record that holds it.
pub proof fn lemma_family_ids_lists_every_record(records: Seq<CloudflareDnsRecordWithId>, v6: bool)
    ensures
        distinct_keys(family_ids(records, v6)),
        forall|a: IpAddress| #![trigger has_key(family_ids(records, v6), a)]
            has_key(family_ids(records, v6), a) <==> exists|i: int|
                0 <= i < records.len() && record_address(records[i].record.content, v6) == Some(a),
        forall|q: int| #![trigger family_ids(records, v6)[q]]
            0 <= q < family_ids(records, v6).len() ==> exists|k: int|
                0 <= k < records.len() && records[k].id@ == family_ids(records, v6)[q].1
                    && record_address(records[k].record.content, v6) == Some(family_ids(records, v6)[q].0),
    decreases records.len(),
{
    if records.len() > 0 {
        let init = records.drop_last();
        let last = records.last();
        lemma_family_ids_lists_every_record(init, v6);
        let prev = family_ids(init, v6);
        let f = family_ids(records, v6);
        assert forall|i: int| 0 <= i < init.len() implies init[i] == records[i] by {}
        match record_address(last.record.content, v6) {
            None => {
                assert(f == prev);
                assert forall|a: IpAddress| has_key(f, a) <==> exists|i: int|
                    0 <= i < records.len() && record_address(records[i].record.content, v6) == Some(a) by {
                    if exists|i: int| 0 <= i < records.len() && record_address(records[i].record.content, v6) == Some(a) {
                        let i = choose|i: int| 0 <= i < records.len() && record_address(records[i].record.content, v6) == Some(a);
                        assert(i < init.len());
                        assert(init[i] == records[i]);
                    }
                    if has_key(prev, a) {
                        let i = choose|i: int| 0 <= i < init.len() && record_address(init[i].record.content, v6) == Some(a);
                        assert(records[i] == init[i]);
                    }
                }
                assert forall|q: int| 0 <= q < f.len() implies exists|k: int|
                    0 <= k < records.len() && records[k].id@ == #[trigger] f[q].1
                        && record_address(records[k].record.content, v6) == Some(f[q].0) by {
                    let k = choose|k: int| 0 <= k < init.len() && init[k].id@ == prev[q].1
                        && record_address(init[k].record.content, v6) == Some(prev[q].0);
                    assert(records[k] == init[k]);
                }
            },
            Some(b) => {
                let id = last.id@;
                let n = records.len() - 1;
                if has_key(prev, b) {
                    let c = choose|c: int| 0 <= c < prev.len() && prev[c].0 == b;
                    assert(f == prev.update(c, (b, id)));
                    crate::assoc::lemma_assoc_update(prev, c, id);
                } else {
                    assert(f == prev.push((b, id)));
                    crate::assoc::lemma_assoc_push(prev, b, id);
                }
                assert forall|a: IpAddress| has_key(f, a) <==> exists|i: int|
                    0 <= i < records.len() && record_address(records[i].record.content, v6) == Some(a) by {
                    if has_key(f, a) {
                        let q = choose|q: int| 0 <= q < f.len() && f[q].0 == a;
                        if a == b {
                            assert(record_address(records[n].record.content, v6) == Some(a));
                        } else {
                            assert(f[q] == prev[q]);
                            assert(has_key(prev, a));
                            let i = choose|i: int| 0 <= i < init.len() && record_address(init[i].record.content, v6) == Some(a);
                            assert(records[i] == init[i]);
                        }
                    }
                    if exists|i: int| 0 <= i < records.len() && record_address(records[i].record.content, v6) == Some(a) {
                        let i = choose|i: int| 0 <= i < records.len() && record_address(records[i].record.content, v6) == Some(a);
                        if a == b {
                            if has_key(prev, b) {
                                let c = choose|c: int| 0 <= c < prev.len() && prev[c].0 == b;
                                assert(f[c].0 == b);
                            } else {
                                assert(f[prev.len() as int].0 == b);
                            }
                        } else {
                            assert(i < n);
                            assert(init[i] == records[i]);
                            assert(has_key(prev, a));
                            let q = choose|q: int| 0 <= q < prev.len() && prev[q].0 == a;
                            assert(f[q] == prev[q]);
                        }
                    }
                }
                assert forall|q: int| 0 <= q < f.len() implies exists|k: int|
                    0 <= k < records.len() && records[k].id@ == #[trigger] f[q].1
                        && record_address(records[k].record.content, v6) == Some(f[q].0) by {
                    if f[q] == (b, id) {
                        assert(records[n] == last);
                    } else {
                        assert(q < prev.len() && f[q] == prev[q]);
                        let k = choose|k: int| 0 <= k < init.len() && init[k].id@ == prev[q].1
                            && record_address(init[k].record.content, v6) == Some(prev[q].0);
                        assert(records[k] == init[k]);
                    }
                }
            },
        }
    }
}

/// Every record the zone lists for the family whose address is not wanted
/// gets its address deleted: the batch deletes the ID of a record that holds
/// that address.
pub proof fn lemma_plan_deletes_every_unwanted_listed_address(
    records: Seq<CloudflareDnsRecordWithId>,
    v6: bool,
    new: Seq<IpAddress>,
    i: int,
)
    requires
        0 <= i < records.len(),
        record_address(records[i].record.content, v6) is Some,
        !new.contains(record_address(records[i].record.content, v6)->0),
    ensures
        exists|j: int, k: int|
            0 <= j < deleted_ids(family_ids(records, v6), new).len() && 0 <= k < records.len()
                && deleted_ids(family_ids(records, v6), new)[j] == records[k].id@
                && record_address(records[k].record.content, v6) == record_address(
                records[i].record.content,
                v6,
            ),
{
    let a = record_address(records[i].record.content, v6)->0;
    let f = family_ids(records, v6);
    lemma_family_ids_lists_every_record(records, v6);
    assert(has_key(f, a));
    let q = choose|q: int| 0 <= q < f.len() && f[q].0 == a;
    let k = choose|k: int| 0 <= k < records.len() && records[k].id@ == f[q].1
        && record_address(records[k].record.content, v6) == Some(f[q].0);
    lemma_deleted_ids_contains(f, new, f[q].1);
    let d = deleted_ids(f, new);
    assert(d.contains(f[q].1));
    let j = choose|j: int| 0 <= j < d.len() && d[j] == f[q].1;
}

/// No address that some record of the family already holds is posted,
/// where the wanted addresses are distinct.
pub proof fn lemma_plan_posts_no_listed_address(
    records: Seq<CloudflareDnsRecordWithId>,
    v6: bool,
    new: Seq<IpAddress>,
    i: int,
)
    requires
        0 <= i < records.len(),
        record_address(records[i].record.content, v6) is Some,
        new.no_duplicates(),
    ensures
        !posted_addresses(new, family_ids(records, v6)).contains(
            record_address(records[i].record.content, v6)->0,
        ),
{
    let a = record_address(records[i].record.content, v6)->0;
    lemma_family_ids_lists_every_record(records, v6);
    assert(has_key(family_ids(records, v6), a));
    lemma_no_redundant_posts(new, family_ids(records, v6));
}

} // verus!

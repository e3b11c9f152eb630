use vstd::prelude::*;

use crate::addr::IpAddress;
use crate::assoc::{
    assoc_map, distinct_keys, has_key, lemma_assoc_at, lemma_assoc_empty, lemma_assoc_update,
};
use crate::conf::HealthCheck;
use crate::health::Health;

verus! {

/// The health of each address under watch.
pub struct AddressHealth {
    entries: Vec<(IpAddress, Health)>,
}

/// The map after the address set becomes `addrs`: addresses that stay keep
/// their health, new ones start at the default, the others are dropped.
pub open spec fn reconciled(m: Map<IpAddress, Health>, addrs: Set<IpAddress>) -> Map<
    IpAddress,
    Health,
> {
    Map::new(
        |a: IpAddress| addrs.contains(a),
        |a: IpAddress|
            if m.contains_key(a) {
                m[a]
            } else {
                Health::Unhealthy { successes: 0 }
            },
    )
}

/// Whether an address of health `h` is checked this round: with
/// `checks_to_down` zero, healthy addresses are not checked.
pub open spec fn needs_check(h: Health, down: usize) -> bool {
    !(down == 0 && h.spec_is_up())
}

/// The map after the check results `rs`, oldest first.  A result counts
/// only for an address that this round checks (`needs_check` on its health
/// in `m`, the map the round's list was taken from); a result for any other
/// address changes nothing.
pub open spec fn after_check_results(
    m: Map<IpAddress, Health>,
    rs: Seq<(IpAddress, bool)>,
    up: usize,
    down: usize,
) -> Map<IpAddress, Health>
    decreases rs.len(),
{
    if rs.len() == 0 {
        m
    } else {
        let prev = after_check_results(m, rs.drop_last(), up, down);
        let a = rs.last().0;
        if prev.contains_key(a) && m.contains_key(a) && needs_check(m[a], down) {
            prev.insert(a, prev[a].next(rs.last().1, up, down))
        } else {
            prev
        }
    }
}

/// Every counter in `m` lies below its threshold.
pub open spec fn all_within(m: Map<IpAddress, Health>, up: usize, down: usize) -> bool {
    forall|a: IpAddress| #[trigger] m.contains_key(a) ==> m[a].within(up, down)
}

/// Whether `v` holds `a`.
pub fn contains_address(v: &Vec<IpAddress>, a: IpAddress) -> (r: bool)
    ensures
        r == v@.contains(a),
{
    let n = v.len();
    let mut i: usize = 0;
    while i < n
        invariant
            n == v@.len(),
            i <= n,
            forall|j: int| 0 <= j < i ==> v@[j] != a,
        decreases n - i,
    {
        if v[i] == a {
            return true;
        }
        i = i + 1;
    }
    false
}

fn find_address(v: &Vec<(IpAddress, Health)>, a: IpAddress) -> (r: Option<usize>)
    ensures
        match r {
            Some(i) => i < v@.len() && v@[i as int].0 == a,
            None => !has_key(v@, a),
        },
{
    let n = v.len();
    let mut i: usize = 0;
    while i < n
        invariant
            n == v@.len(),
            i <= n,
            forall|j: int| 0 <= j < i ==> v@[j].0 != a,
        decreases n - i,
    {
        if v[i].0 == a {
            return Some(i);
        }
        i = i + 1;
    }
    None
}

impl View for AddressHealth {
    type V = Map<IpAddress, Health>;

    closed spec fn view(&self) -> Map<IpAddress, Health> {
        assoc_map(self.entries@)
    }
}

impl AddressHealth {
    /// No address is listed twice.
    pub closed spec fn wf(self) -> bool {
        distinct_keys(self.entries@)
    }

    pub fn new() -> (r: Self)
        ensures
            r.wf(),
            r@ == Map::<IpAddress, Health>::empty(),
    {
        let r = AddressHealth { entries: Vec::new() };
        proof {
            lemma_assoc_empty(r.entries@);
        }
        r
    }

    /// Drops the addresses that are no longer in `addrs` and adds, at the
    /// default health, those that are new.
    pub fn reconcile(&mut self, addrs: &Vec<IpAddress>)
        requires
            old(self).wf(),
        ensures
            final(self).wf(),
            final(self)@ == reconciled(old(self)@, addrs@.to_set()),
    {
        let ghost m = self@;
        let ghost old_entries = self.entries@;
        let mut kept: Vec<(IpAddress, Health)> = Vec::new();
        let n = self.entries.len();
        let mut i: usize = 0;
        while i < n
            invariant
                n == self.entries@.len(),
                old_entries == self.entries@,
                distinct_keys(old_entries),
                i <= n,
                distinct_keys(kept@),
                forall|q: int|
                    0 <= q < kept@.len() ==> addrs@.contains(#[trigger] kept@[q].0) && exists|k: int|
                        0 <= k < i && old_entries[k] == kept@[q],
                forall|k: int|
                    0 <= k < i && addrs@.contains(#[trigger] old_entries[k].0) ==> has_key(
                        kept@,
                        old_entries[k].0,
                    ),
            decreases n - i,
        {
            let entry = self.entries[i];
            if contains_address(addrs, entry.0) {
                let ghost before = kept@;
                kept.push(entry);
                proof {
                    assert forall|q: int| 0 <= q < before.len() implies before[q].0 != entry.0 by {
                        assert(addrs@.contains(before[q].0));
                        let k = choose|k: int| 0 <= k < i && old_entries[k] == before[q];
                        assert(old_entries[k].0 != old_entries[i as int].0);
                    }
                    assert(kept@[before.len() as int] == entry);
                    assert forall|x: int, y: int|
                        0 <= x < kept@.len() && 0 <= y < kept@.len() && x != y implies kept@[x].0
                        != kept@[y].0 by {
                        if x < before.len() && y < before.len() {
                            assert(kept@[x] == before[x] && kept@[y] == before[y]);
                        } else if x < before.len() {
                            assert(kept@[x] == before[x]);
                        } else {
                            assert(kept@[y] == before[y]);
                        }
                    }
                    assert forall|k: int|
                        0 <= k < i + 1 && addrs@.contains(#[trigger] old_entries[k].0) implies has_key(
                        kept@,
                        old_entries[k].0,
                    ) by {
                        if k < i {
                            let q = choose|q: int| 0 <= q < before.len() && before[q].0 == old_entries[k].0;
                            assert(kept@[q] == before[q]);
                        } else {
                            assert(kept@[before.len() as int].0 == old_entries[k].0);
                        }
                    }
                    assert forall|q: int| 0 <= q < kept@.len() implies addrs@.contains(
                        #[trigger] kept@[q].0,
                    ) && exists|k: int| 0 <= k < i + 1 && old_entries[k] == kept@[q] by {
                        if q < before.len() {
                            assert(kept@[q] == before[q]);
                        } else {
                            assert(old_entries[i as int] == kept@[q]);
                        }
                    }
                }
            }
            i = i + 1;
        }
        let ghost first = kept@;
        let m2 = addrs.len();
        let mut j: usize = 0;
        while j < m2
            invariant
                m2 == addrs@.len(),
                j <= m2,
                distinct_keys(old_entries),
                m == assoc_map(old_entries),
                distinct_keys(kept@),
                forall|q: int|
                    0 <= q < kept@.len() ==> addrs@.contains(#[trigger] kept@[q].0) && (
                    (exists|k: int| 0 <= k < old_entries.len() && old_entries[k] == kept@[q]) || (
                    !has_key(old_entries, kept@[q].0) && kept@[q].1 == (Health::Unhealthy {
                        successes: 0,
                    }))),
                forall|k: int|
                    0 <= k < old_entries.len() && addrs@.contains(#[trigger] old_entries[k].0)
                        ==> has_key(kept@, old_entries[k].0),
                forall|x: int| 0 <= x < j ==> has_key(kept@, #[trigger] addrs@[x]),
            decreases m2 - j,
        {
            let a = addrs[j];
            match find_address(&kept, a) {
                Some(_) => {},
                None => {
                    let ghost before = kept@;
                    proof {
                        if has_key(old_entries, a) {
                            let k = choose|k: int| 0 <= k < old_entries.len() && old_entries[k].0 == a;
                            assert(addrs@.contains(a)) by {
                                assert(addrs@[j as int] == a);
                            }
                            assert(has_key(before, old_entries[k].0));
                        }
                    }
                    kept.push((a, Health::Unhealthy { successes: 0 }));
                    proof {
                        assert(addrs@[j as int] == a);
                        assert(kept@[before.len() as int] == (a, Health::Unhealthy { successes: 0 }));
                        assert forall|x: int, y: int|
                            0 <= x < kept@.len() && 0 <= y < kept@.len() && x != y implies kept@[x].0
                            != kept@[y].0 by {
                            if x < before.len() && y < before.len() {
                                assert(kept@[x] == before[x] && kept@[y] == before[y]);
                            } else if x < before.len() {
                                assert(kept@[x] == before[x]);
                            } else {
                                assert(kept@[y] == before[y]);
                            }
                        }
                        assert forall|q: int| 0 <= q < kept@.len() implies addrs@.contains(
                            #[trigger] kept@[q].0,
                        ) && ((exists|k: int| 0 <= k < old_entries.len() && old_entries[k] == kept@[q]) || (
                        !has_key(old_entries, kept@[q].0) && kept@[q].1 == (Health::Unhealthy {
                            successes: 0,
                        }))) by {
                            if q < before.len() {
                                assert(kept@[q] == before[q]);
                            }
                        }
                        assert forall|k: int|
                            0 <= k < old_entries.len() && addrs@.contains(#[trigger] old_entries[k].0)
                                implies has_key(kept@, old_entries[k].0) by {
                            let q = choose|q: int| 0 <= q < before.len() && before[q].0 == old_entries[k].0;
                            assert(kept@[q] == before[q]);
                        }
                        assert forall|x: int| 0 <= x < j + 1 implies has_key(kept@, #[trigger] addrs@[x]) by {
                            if x < j {
                                let q = choose|q: int| 0 <= q < before.len() && before[q].0 == addrs@[x];
                                assert(kept@[q] == before[q]);
                            } else {
                                assert(kept@[before.len() as int].0 == addrs@[x]);
                            }
                        }
                    }
                },
            }
            j = j + 1;
        }
        self.entries = kept;
        proof {
            let t = self.entries@;
            let target = reconciled(m, addrs@.to_set());
            assert forall|a: IpAddress| #[trigger] assoc_map(t).contains_key(a) == target.contains_key(a) by {
                if has_key(t, a) {
                    let q = choose|q: int| 0 <= q < t.len() && t[q].0 == a;
                }
                if addrs@.contains(a) {
                    let x = choose|x: int| 0 <= x < addrs@.len() && addrs@[x] == a;
                    assert(has_key(t, addrs@[x]));
                }
            }
            assert forall|a: IpAddress| #[trigger] assoc_map(t).contains_key(a) implies assoc_map(t)[a]
                == target[a] by {
                let q = choose|q: int| 0 <= q < t.len() && t[q].0 == a;
                lemma_assoc_at(t, q);
                if exists|k: int| 0 <= k < old_entries.len() && old_entries[k] == t[q] {
                    let k = choose|k: int| 0 <= k < old_entries.len() && old_entries[k] == t[q];
                    lemma_assoc_at(old_entries, k);
                } else {
                    assert(!m.contains_key(a));
                }
            }
            assert(assoc_map(t) =~= target);
        }
    }

    /// The addresses that this round checks, each once: all but the healthy
    /// ones when `checks_to_down` is zero.
    pub fn addresses_to_check(&self, policy: &HealthCheck) -> (r: Vec<IpAddress>)
        requires
            self.wf(),
        ensures
            r@.no_duplicates(),
            forall|a: IpAddress|
                r@.contains(a) <==> self@.contains_key(a) && needs_check(
                    self@[a],
                    policy.checks_to_down,
                ),
    {
        self.select(policy.checks_to_down, false)
    }

    /// The watched addresses, each once.
    pub fn addresses(&self) -> (r: Vec<IpAddress>)
        requires
            self.wf(),
        ensures
            r@.no_duplicates(),
            forall|a: IpAddress| r@.contains(a) <==> self@.contains_key(a),
    {
        self.select(1, false)
    }

    /// The addresses that are currently healthy, each once.
    pub fn up_addresses(&self) -> (r: Vec<IpAddress>)
        requires
            self.wf(),
        ensures
            r@.no_duplicates(),
            forall|a: IpAddress| r@.contains(a) <==> self@.contains_key(a) && self@[a].spec_is_up(),
    {
        self.select(0, true)
    }

    /// With `healthy` set, the healthy addresses; otherwise the addresses
    /// that need a check under a `down` threshold.
    fn select(&self, down: usize, healthy: bool) -> (r: Vec<IpAddress>)
        requires
            self.wf(),
        ensures
            r@.no_duplicates(),
            forall|a: IpAddress|
                r@.contains(a) <==> self@.contains_key(a) && (if healthy {
                    self@[a].spec_is_up()
                } else {
                    needs_check(self@[a], down)
                }),
    {
        let ghost e = self.entries@;
        let ghost keep = |h: Health| if healthy { h.spec_is_up() } else { needs_check(h, down) };
        let mut r: Vec<IpAddress> = Vec::new();
        let n = self.entries.len();
        let mut i: usize = 0;
        while i < n
            invariant
                n == e.len(),
                e == self.entries@,
                distinct_keys(e),
                i <= n,
                keep == (|h: Health| if healthy { h.spec_is_up() } else { needs_check(h, down) }),
                r@.no_duplicates(),
                forall|a: IpAddress|
                    r@.contains(a) <==> exists|k: int| 0 <= k < i && (#[trigger] e[k]).0 == a && keep(e[k].1),
            decreases n - i,
        {
            let (a, h) = self.entries[i];
            let take = if healthy { h.is_up() } else { !(down == 0 && h.is_up()) };
            let ghost before = r@;
            if take {
                r.push(a);
            }
            proof {
                assert forall|b: IpAddress|
                    r@.contains(b) <==> exists|k: int| 0 <= k < i + 1 && (#[trigger] e[k]).0 == b && keep(e[k].1) by {
                    if r@.contains(b) {
                        let x = choose|x: int| 0 <= x < r@.len() && r@[x] == b;
                        if x < before.len() {
                            assert(before[x] == b);
                            assert(before.contains(b));
                        } else {
                            assert(e[i as int].0 == b);
                        }
                    }
                    if exists|k: int| 0 <= k < i + 1 && (#[trigger] e[k]).0 == b && keep(e[k].1) {
                        let k = choose|k: int| 0 <= k < i + 1 && (#[trigger] e[k]).0 == b && keep(e[k].1);
                        if k == i {
                            assert(r@[r@.len() - 1] == b);
                        } else {
                            assert(before.contains(b));
                            let x = choose|x: int| 0 <= x < before.len() && before[x] == b;
                            assert(r@[x] == b);
                        }
                    }
                }
                if take {
                    assert forall|x: int, y: int| 0 <= x < r@.len() && 0 <= y < r@.len() && x != y implies r@[x] != r@[y] by {
                        if x < before.len() && y < before.len() {
                        } else if x < before.len() {
                            assert(before.contains(r@[x]));
                            let k = choose|k: int| 0 <= k < i && (#[trigger] e[k]).0 == before[x] && keep(e[k].1);
                            assert(e[k].0 != e[i as int].0);
                        } else {
                            assert(before.contains(r@[y]));
                            let k = choose|k: int| 0 <= k < i && (#[trigger] e[k]).0 == before[y] && keep(e[k].1);
                            assert(e[k].0 != e[i as int].0);
                        }
                    }
                }
            }
            i = i + 1;
        }
        proof {
            assert forall|a: IpAddress|
                r@.contains(a) <==> self@.contains_key(a) && keep(self@[a]) by {
                if r@.contains(a) {
                    let k = choose|k: int| 0 <= k < n && (#[trigger] e[k]).0 == a && keep(e[k].1);
                    lemma_assoc_at(e, k);
                }
                if self@.contains_key(a) && keep(self@[a]) {
                    let k = choose|k: int| 0 <= k < e.len() && e[k].0 == a;
                    lemma_assoc_at(e, k);
                    assert(keep(e[k].1));
                }
            }
        }
        r
    }

    /// Records check results in order; a result for an address that is not
    /// watched, or that this round does not check, is ignored.
    pub fn apply_results(&mut self, results: &Vec<(IpAddress, bool)>, policy: &HealthCheck)
        requires
            old(self).wf(),
            all_within(old(self)@, policy.checks_to_up, policy.checks_to_down),
        ensures
            final(self).wf(),
            final(self)@ == after_check_results(
                old(self)@,
                results@,
                policy.checks_to_up,
                policy.checks_to_down,
            ),
            all_within(final(self)@, policy.checks_to_up, policy.checks_to_down),
    {
        let ghost m0 = self@;
        let ghost up = policy.checks_to_up;
        let ghost down = policy.checks_to_down;
        let mut start: Vec<(IpAddress, Health)> = Vec::new();
        let m_len = self.entries.len();
        let mut j: usize = 0;
        while j < m_len
            invariant
                m_len == self.entries@.len(),
                j <= m_len,
                start@ == self.entries@.subrange(0, j as int),
            decreases m_len - j,
        {
            start.push(self.entries[j]);
            assert(self.entries@.subrange(0, j + 1) =~= self.entries@.subrange(0, j as int).push(
                self.entries@[j as int],
            ));
            j = j + 1;
        }
        assert(start@ =~= self.entries@);
        let n = results.len();
        let mut i: usize = 0;
        while i < n
            invariant
                n == results@.len(),
                i <= n,
                up == policy.checks_to_up,
                down == policy.checks_to_down,
                self.wf(),
                self@ == after_check_results(m0, results@.subrange(0, i as int), up, down),
                all_within(self@, up, down),
                distinct_keys(start@),
                m0 == assoc_map(start@),
                start@.len() == self.entries@.len(),
                forall|j: int| 0 <= j < start@.len() ==> #[trigger] self.entries@[j].0 == start@[j].0,
            decreases n - i,
        {
            let (a, ok) = results[i];
            let ghost prev = self@;
            assert(results@.subrange(0, i + 1).drop_last() =~= results@.subrange(0, i as int));
            match find_address(&self.entries, a) {
                None => {
                    proof {
                        if prev.contains_key(a) {
                            let k = choose|k: int| 0 <= k < self.entries@.len() && self.entries@[k].0 == a;
                        }
                    }
                },
                Some(k) => {
                    let h = self.entries[k].1;
                    let h0 = start[k].1;
                    proof {
                        lemma_assoc_at(self.entries@, k as int);
                        assert(start@[k as int].0 == a);
                        lemma_assoc_at(start@, k as int);
                        crate::health::lemma_counters_stay_within(h, ok, up, down);
                    }
                    if !(policy.checks_to_down == 0 && h0.is_up()) {
                        let h2 = h.add_result(ok, policy);
                        let ghost before = self.entries@;
                        self.entries.set(k, (a, h2));
                        proof {
                            lemma_assoc_update(before, k as int, h2);
                            assert forall|b: IpAddress| #[trigger] self@.contains_key(b) implies self@[b].within(up, down) by {
                                if b != a {
                                    assert(prev.contains_key(b));
                                }
                            }
                            assert forall|j: int| 0 <= j < start@.len() implies #[trigger] self.entries@[j].0 == start@[j].0 by {
                                assert(before[j].0 == start@[j].0);
                            }
                        }
                    }
                },
            }
            i = i + 1;
        }
        assert(results@.subrange(0, n as int) =~= results@);
    }
}

/// Reconciling keeps every counter below its threshold.
pub proof fn lemma_reconcile_keeps_within(
    m: Map<IpAddress, Health>,
    addrs: Set<IpAddress>,
    up: usize,
    down: usize,
)
    requires
        all_within(m, up, down),
    ensures
        all_within(reconciled(m, addrs), up, down),
{
    assert forall|a: IpAddress| #[trigger] reconciled(m, addrs).contains_key(a) implies reconciled(
        m,
        addrs,
    )[a].within(up, down) by {
        if m.contains_key(a) {
        }
    }
}

/// An address that this round does not check keeps its health, whatever
/// results are handed in.
pub proof fn lemma_unchecked_address_keeps_health(
    m: Map<IpAddress, Health>,
    rs: Seq<(IpAddress, bool)>,
    up: usize,
    down: usize,
    a: IpAddress,
)
    requires
        m.contains_key(a),
        !needs_check(m[a], down),
    ensures
        after_check_results(m, rs, up, down).contains_key(a),
        after_check_results(m, rs, up, down)[a] == m[a],
    decreases rs.len(),
{
    if rs.len() > 0 {
        lemma_unchecked_address_keeps_health(m, rs.drop_last(), up, down, a);
    }
}

/// An address that this round checks, with exactly one result among
/// `rs`, takes that one result.
pub proof fn lemma_checked_address_takes_its_result(
    m: Map<IpAddress, Health>,
    rs: Seq<(IpAddress, bool)>,
    up: usize,
    down: usize,
    i: int,
)
    requires
        0 <= i < rs.len(),
        m.contains_key(rs[i].0),
        needs_check(m[rs[i].0], down),
        forall|j: int| 0 <= j < rs.len() && j != i ==> rs[j].0 != rs[i].0,
    ensures
        after_check_results(m, rs, up, down).contains_key(rs[i].0),
        after_check_results(m, rs, up, down)[rs[i].0] == m[rs[i].0].next(rs[i].1, up, down),
    decreases rs.len(),
{
    let a = rs[i].0;
    let init = rs.drop_last();
    if i == rs.len() - 1 {
        lemma_result_free_prefix(m, init, up, down, a);
    } else {
        assert forall|j: int| 0 <= j < init.len() && j != i implies init[j].0 != init[i].0 by {
            assert(init[j] == rs[j]);
        }
        assert(init[i] == rs[i]);
        lemma_checked_address_takes_its_result(m, init, up, down, i);
        assert(rs.last().0 != a);
    }
}

/// Results for other addresses leave an address as it was.
proof fn lemma_result_free_prefix(
    m: Map<IpAddress, Health>,
    rs: Seq<(IpAddress, bool)>,
    up: usize,
    down: usize,
    a: IpAddress,
)
    requires
        m.contains_key(a),
        forall|j: int| 0 <= j < rs.len() ==> rs[j].0 != a,
    ensures
        after_check_results(m, rs, up, down).contains_key(a),
        after_check_results(m, rs, up, down)[a] == m[a],
    decreases rs.len(),
{
    if rs.len() > 0 {
        let init = rs.drop_last();
        assert forall|j: int| 0 <= j < init.len() implies init[j].0 != a by {
            assert(init[j] == rs[j]);
        }
        lemma_result_free_prefix(m, init, up, down, a);
        assert(rs[rs.len() - 1].0 != a);
    }
}

/// Reconciling keeps the health of an address that stays watched, starts a
/// newly watched address unhealthy with no successes, and drops the rest.
pub proof fn lemma_reconcile_keeps_staying_health(
    m: Map<IpAddress, Health>,
    addrs: Set<IpAddress>,
    a: IpAddress,
)
    ensures
        reconciled(m, addrs).contains_key(a) <==> addrs.contains(a),
        m.contains_key(a) && addrs.contains(a) ==> reconciled(m, addrs)[a] == m[a],
        !m.contains_key(a) && addrs.contains(a) ==> reconciled(m, addrs)[a] == (Health::Unhealthy {
            successes: 0,
        }),
{
}

/// The health of one watched address after `n` ticks in which it stays
/// watched and each tick reports one failure for it.
pub open spec fn after_failing_ticks(
    m: Map<IpAddress, Health>,
    addrs: Set<IpAddress>,
    a: IpAddress,
    n: nat,
    up: usize,
    down: usize,
) -> Map<IpAddress, Health>
    decreases n,
{
    if n == 0 {
        m
    } else {
        let r = reconciled(after_failing_ticks(m, addrs, a, (n - 1) as nat, up, down), addrs);
        after_check_results(r, seq![(a, false)], up, down)
    }
}

/// Failures accumulate across ticks: a healthy address that stays watched
/// and fails one check per tick turns unhealthy after exactly
/// `checks_to_down` ticks (for a positive threshold), and not before.
pub proof fn lemma_failures_accumulate_across_ticks(
    m: Map<IpAddress, Health>,
    addrs: Set<IpAddress>,
    a: IpAddress,
    n: nat,
    up: usize,
    down: usize,
)
    requires
        m.contains_key(a),
        m[a] == (Health::Healthy { failures: 0 }),
        addrs.contains(a),
        down > 0,
    ensures
        after_failing_ticks(m, addrs, a, n, up, down).contains_key(a),
        after_failing_ticks(m, addrs, a, n, up, down)[a] == (if n >= down {
            Health::Unhealthy { successes: 0 }
        } else {
            Health::Healthy { failures: n as usize }
        }),
        (!after_failing_ticks(m, addrs, a, n, up, down)[a].spec_is_up()) <==> n >= down,
    decreases n,
{
    if n > 0 {
        lemma_failures_accumulate_across_ticks(m, addrs, a, (n - 1) as nat, up, down);
        let prev = after_failing_ticks(m, addrs, a, (n - 1) as nat, up, down);
        let r = reconciled(prev, addrs);
        assert(r.contains_key(a) && r[a] == prev[a]);
        let rs = seq![(a, false)];
        assert(rs.drop_last() =~= Seq::<(IpAddress, bool)>::empty());
        assert(rs.last() == (a, false));
        assert(after_check_results(r, rs.drop_last(), up, down) == r);
        assert(needs_check(r[a], down));
        assert(after_check_results(r, rs, up, down) == r.insert(a, r[a].next(false, up, down)));
    }
}

} // verus!

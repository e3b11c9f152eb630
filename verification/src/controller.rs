use vstd::prelude::*;

use crate::addr::IpAddress;
use crate::address_health::{
    after_check_results, all_within, lemma_reconcile_keeps_within, needs_check, reconciled,
    AddressHealth,
};
use crate::conf::HealthCheck;
use crate::dns::{plan_dns_update, v4_set, v6_set, DnsState, DnsUpdate};
use crate::health::Health;
use crate::nodes::{addresses_of, get_node_addresses, spec_node_addresses, NodeInfo, NodeTable};

verus! {

/// A change reported by the node watcher.
pub enum WatchEvent {
    /// The watcher (re)starts listing all nodes.
    Init,
    /// A node of the initial listing.
    InitApply(NodeInfo),
    /// The initial listing is complete.
    InitDone,
    /// A node was added or changed.
    Apply(NodeInfo),
    /// A node was deleted.
    Delete(NodeInfo),
}

/// The decisions of the service between the node watcher, the health
/// checks and the DNS provider.  The caller feeds it watcher events, runs
/// the health checks it asks for on each timer tick, and sends the DNS
/// updates it plans.
pub struct Controller {
    skip_unschedulable: bool,
    health_check: Option<HealthCheck>,
    suspend: bool,
    warmup_checks: usize,
    nodes: NodeTable,
    address_health: AddressHealth,
    dns_state: DnsState,
}

/// The controller as a mathematical value.
pub struct ControllerView {
    pub skip_unschedulable: bool,
    /// `checks_to_up` and `checks_to_down`, where health checks are on.
    pub thresholds: Option<(usize, usize)>,
    /// Whether changes are held back until the watcher's listing is complete.
    pub suspend: bool,
    /// Ticks still to pass before the first DNS update.
    pub warmup_checks: nat,
    pub nodes: Map<Seq<char>, Seq<IpAddress>>,
    pub health: Map<IpAddress, Health>,
    /// What the DNS provider is known to hold.
    pub v4: Set<u32>,
    pub v6: Set<u128>,
}

/// The IPv4 members of `s`.
pub open spec fn v4_of(s: Set<IpAddress>) -> Set<u32> {
    Set::new(|x: u32| s.contains(IpAddress::V4(x)))
}

/// The IPv6 members of `s`.
pub open spec fn v6_of(s: Set<IpAddress>) -> Set<u128> {
    Set::new(|x: u128| s.contains(IpAddress::V6(x)))
}

/// The node table after the watcher reports `node`: a node without a name
/// is ignored; a node that is skipped as unschedulable or has no usable
/// external address is dropped; any other is recorded with its addresses.
pub open spec fn nodes_after_apply(
    nodes: Map<Seq<char>, Seq<IpAddress>>,
    node: NodeInfo,
    skip_unschedulable: bool,
) -> Map<Seq<char>, Seq<IpAddress>> {
    match node.name {
        None => nodes,
        Some(name) => if (skip_unschedulable && node.unschedulable == Some(true))
            || spec_node_addresses(node) is None {
            nodes.remove(name@)
        } else {
            nodes.insert(name@, spec_node_addresses(node)->0)
        },
    }
}

/// The view after a watcher event.
pub open spec fn after_event(v: ControllerView, e: WatchEvent) -> ControllerView {
    match e {
        WatchEvent::Init => ControllerView { nodes: Map::empty(), suspend: true, ..v },
        WatchEvent::InitDone => ControllerView { suspend: false, ..v },
        WatchEvent::InitApply(node) => ControllerView {
            nodes: nodes_after_apply(v.nodes, node, v.skip_unschedulable),
            ..v
        },
        WatchEvent::Apply(node) => ControllerView {
            nodes: nodes_after_apply(v.nodes, node, v.skip_unschedulable),
            ..v
        },
        WatchEvent::Delete(node) => match node.name {
            Some(name) => ControllerView { nodes: v.nodes.remove(name@), ..v },
            None => v,
        },
    }
}

/// Whether a tick does health checks: it must not be suspended and checks
/// must be configured.
pub open spec fn checks_run(v: ControllerView) -> bool {
    !v.suspend && v.thresholds is Some
}

/// The view once a tick has aligned the watched addresses with the nodes.
pub open spec fn after_start_tick(v: ControllerView) -> ControllerView {
    if checks_run(v) {
        ControllerView { health: reconciled(v.health, addresses_of(v.nodes)), ..v }
    } else {
        v
    }
}

/// The addresses a tick asks to check (in the view after `after_start_tick`).
pub open spec fn checks_wanted(v: ControllerView) -> Set<IpAddress> {
    if checks_run(v) {
        Set::new(
            |a: IpAddress| v.health.contains_key(a) && needs_check(v.health[a], (v.thresholds->0).1),
        )
    } else {
        Set::empty()
    }
}

/// The health map after the results of a tick's checks.
pub open spec fn health_after_results(v: ControllerView, rs: Seq<(IpAddress, bool)>) -> Map<
    IpAddress,
    Health,
> {
    match v.thresholds {
        Some(t) => after_check_results(v.health, rs, t.0, t.1),
        None => v.health,
    }
}

/// The addresses that should be in DNS: the healthy ones where health
/// checks are on, otherwise every address of every node.
pub open spec fn desired_addresses(
    thresholds: Option<(usize, usize)>,
    nodes: Map<Seq<char>, Seq<IpAddress>>,
    health: Map<IpAddress, Health>,
) -> Set<IpAddress> {
    if thresholds is Some {
        Set::new(|a: IpAddress| health.contains_key(a) && health[a].spec_is_up())
    } else {
        addresses_of(nodes)
    }
}

/// The view once a tick's check results are in.
pub open spec fn after_finish_tick(v: ControllerView, rs: Seq<(IpAddress, bool)>) -> ControllerView {
    if v.suspend {
        v
    } else {
        ControllerView {
            health: health_after_results(v, rs),
            warmup_checks: if v.warmup_checks > 0 {
                (v.warmup_checks - 1) as nat
            } else {
                0
            },
            ..v
        }
    }
}

/// Whether the tick ending with results `rs` sends a DNS update: not while
/// suspended or warming up, and only where a family's address set differs
/// from what the provider holds.
pub open spec fn update_wanted(v: ControllerView, rs: Seq<(IpAddress, bool)>) -> bool {
    let w = after_finish_tick(v, rs);
    let want = desired_addresses(w.thresholds, w.nodes, w.health);
    &&& !v.suspend
    &&& v.warmup_checks == 0
    &&& (v4_of(want) != v.v4 || v6_of(want) != v.v6)
}

/// The view after the provider answered an update that would make it hold
/// `v4` and `v6`.
pub open spec fn after_dns_result(v: ControllerView, v4: Set<u32>, v6: Set<u128>, ok: bool) -> ControllerView {
    if ok {
        ControllerView { v4, v6, ..v }
    } else {
        v
    }
}

impl View for Controller {
    type V = ControllerView;

    closed spec fn view(&self) -> ControllerView {
        ControllerView {
            skip_unschedulable: self.skip_unschedulable,
            thresholds: match self.health_check {
                Some(c) => Some((c.checks_to_up, c.checks_to_down)),
                None => None,
            },
            suspend: self.suspend,
            warmup_checks: self.warmup_checks as nat,
            nodes: self.nodes@,
            health: self.address_health@,
            v4: self.dns_state.spec_v4(),
            v6: self.dns_state.spec_v6(),
        }
    }
}

impl Controller {
    /// The health check configuration the controller was made with.
    pub closed spec fn spec_health_check(&self) -> Option<HealthCheck> {
        self.health_check
    }

    /// The tables are consistent and every health counter lies below its
    /// threshold.
    pub closed spec fn inv(&self) -> bool {
        &&& self.nodes.wf()
        &&& self.address_health.wf()
        &&& self.dns_state.wf()
        &&& match self.health_check {
            Some(c) => all_within(self.address_health@, c.checks_to_up, c.checks_to_down),
            None => true,
        }
    }

    /// A controller that waits for the watcher's first complete listing and,
    /// with health checks on, for `checks_to_up` ticks before it touches DNS.
    pub fn new(skip_unschedulable: bool, health_check: Option<HealthCheck>) -> (r: Self)
        ensures
            r.inv(),
            r.spec_health_check() == health_check,
            r@.skip_unschedulable == skip_unschedulable,
            r@.thresholds == match health_check {
                Some(c) => Some((c.checks_to_up, c.checks_to_down)),
                None => None,
            },
            r@.suspend,
            r@.warmup_checks == match health_check {
                Some(c) => c.checks_to_up as nat,
                None => 0,
            },
            r@.nodes == Map::<Seq<char>, Seq<IpAddress>>::empty(),
            r@.health == Map::<IpAddress, Health>::empty(),
            r@.v4 == Set::<u32>::empty(),
            r@.v6 == Set::<u128>::empty(),
    {
        let warmup_checks = match &health_check {
            Some(c) => c.checks_to_up,
            None => 0,
        };
        Controller {
            skip_unschedulable,
            health_check,
            suspend: true,
            warmup_checks,
            nodes: NodeTable::new(),
            address_health: AddressHealth::new(),
            dns_state: DnsState::new(),
        }
    }

    /// The health check configuration, for the caller that runs the checks.
    pub fn health_check(&self) -> (r: &Option<HealthCheck>)
        ensures
            *r == self.spec_health_check(),
            self@.thresholds == match *r {
                Some(c) => Some((c.checks_to_up, c.checks_to_down)),
                None => None,
            },
    {
        &self.health_check
    }

    /// The addresses under health watch, each once.
    pub fn watched_addresses(&self) -> (r: Vec<IpAddress>)
        requires
            self.inv(),
        ensures
            r@.no_duplicates(),
            forall|a: IpAddress| r@.contains(a) <==> self@.health.contains_key(a),
    {
        self.address_health.addresses()
    }

    /// The watched addresses that are healthy, each once.
    pub fn healthy_addresses(&self) -> (r: Vec<IpAddress>)
        requires
            self.inv(),
        ensures
            r@.no_duplicates(),
            forall|a: IpAddress|
                r@.contains(a) <==> self@.health.contains_key(a) && self@.health[a].spec_is_up(),
    {
        self.address_health.up_addresses()
    }

    /// Whether the update timer is to be served: not while suspended.
    pub fn tick_enabled(&self) -> (r: bool)
        ensures
            r == !self@.suspend,
    {
        !self.suspend
    }

    /// The addresses the DNS provider is known to hold.
    pub fn dns_state(&self) -> (r: &DnsState)
        requires
            self.inv(),
        ensures
            r.wf(),
            r.spec_v4() == self@.v4,
            r.spec_v6() == self@.v6,
    {
        &self.dns_state
    }

    fn apply_node(&mut self, node: NodeInfo)
        requires
            old(self).inv(),
        ensures
            final(self).inv(),
            final(self).spec_health_check() == old(self).spec_health_check(),
            final(self)@ == (ControllerView {
                nodes: nodes_after_apply(old(self)@.nodes, node, old(self)@.skip_unschedulable),
                ..old(self)@
            }),
    {
        let skip_flag = self.skip_unschedulable;
        let addresses = get_node_addresses(&node);
        let NodeInfo { name, unschedulable, addresses: _ } = node;
        match name {
            None => {},
            Some(name) => {
                let skip = skip_flag && match unschedulable {
                    Some(u) => u,
                    None => false,
                };
                match addresses {
                    Some(addrs) if !skip => {
                        self.nodes.insert(name, addrs);
                    },
                    _ => {
                        self.nodes.remove(&name);
                    },
                }
            },
        }
    }

    /// Takes in one watcher event.
    pub fn handle_event(&mut self, event: WatchEvent)
        requires
            old(self).inv(),
        ensures
            final(self).inv(),
            final(self).spec_health_check() == old(self).spec_health_check(),
            final(self)@ == after_event(old(self)@, event),
    {
        match event {
            WatchEvent::Init => {
                self.nodes.clear();
                self.suspend = true;
            },
            WatchEvent::InitDone => {
                self.suspend = false;
            },
            WatchEvent::InitApply(node) => {
                self.apply_node(node);
            },
            WatchEvent::Apply(node) => {
                self.apply_node(node);
            },
            WatchEvent::Delete(node) => {
                match node.name {
                    Some(name) => {
                        self.nodes.remove(&name);
                    },
                    None => {},
                }
            },
        }
    }

    /// Starts a timer tick: aligns the watched addresses with the current
    /// nodes and returns, each once, the addresses to health-check now.
    pub fn start_tick(&mut self) -> (r: Vec<IpAddress>)
        requires
            old(self).inv(),
        ensures
            final(self).inv(),
            final(self).spec_health_check() == old(self).spec_health_check(),
            final(self)@ == after_start_tick(old(self)@),
            r@.no_duplicates(),
            r@.to_set() == checks_wanted(final(self)@),
    {
        if self.suspend {
            let r: Vec<IpAddress> = Vec::new();
            assert(r@.to_set() =~= Set::<IpAddress>::empty());
            return r;
        }
        match &self.health_check {
            None => {
                let r: Vec<IpAddress> = Vec::new();
                assert(r@.to_set() =~= Set::<IpAddress>::empty());
                r
            },
            Some(check) => {
                let addrs = self.nodes.all_addresses();
                let ghost old_health = self.address_health@;
                assert(addrs@.to_set() =~= addresses_of(self.nodes@));
                self.address_health.reconcile(&addrs);
                proof {
                    lemma_reconcile_keeps_within(
                        old_health,
                        addrs@.to_set(),
                        check.checks_to_up,
                        check.checks_to_down,
                    );
                }
                let r = self.address_health.addresses_to_check(check);
                assert(r@.to_set() =~= checks_wanted(self@));
                r
            },
        }
    }

    /// Ends a timer tick with the results of the checks it asked for, and
    /// returns the DNS update to send, if any.
    pub fn finish_tick(&mut self, results: &Vec<(IpAddress, bool)>) -> (r: Option<DnsUpdate>)
        requires
            old(self).inv(),
        ensures
            final(self).inv(),
            final(self).spec_health_check() == old(self).spec_health_check(),
            final(self)@ == after_finish_tick(old(self)@, results@),
            r is Some <==> update_wanted(old(self)@, results@),
            r is Some ==> ({
                let u = r->0;
                let want = desired_addresses(
                    final(self)@.thresholds,
                    final(self)@.nodes,
                    final(self)@.health,
                );
                &&& u.wf()
                &&& u.spec_new_state().spec_v4() == v4_of(want)
                &&& u.spec_new_state().spec_v6() == v6_of(want)
                &&& (u.spec_v4addrs() is Some <==> v4_of(want) != old(self)@.v4)
                &&& (u.spec_v6addrs() is Some <==> v6_of(want) != old(self)@.v6)
                &&& u.spec_v4addrs() is Some ==> u.spec_v4addrs()->0.no_duplicates()
                    && u.spec_v4addrs()->0.to_set() == v4_of(want)
                &&& u.spec_v6addrs() is Some ==> u.spec_v6addrs()->0.no_duplicates()
                    && u.spec_v6addrs()->0.to_set() == v6_of(want)
            }),
    {
        if self.suspend {
            return None;
        }
        match &self.health_check {
            Some(check) => {
                self.address_health.apply_results(results, check);
            },
            None => {},
        }
        if self.warmup_checks > 0 {
            self.warmup_checks = self.warmup_checks - 1;
            return None;
        }
        let addrs = match &self.health_check {
            Some(_) => self.address_health.up_addresses(),
            None => self.nodes.all_addresses(),
        };
        let ghost want = desired_addresses(self@.thresholds, self@.nodes, self@.health);
        assert(v4_set(addrs@) =~= v4_of(want));
        assert(v6_set(addrs@) =~= v6_of(want));
        let update = plan_dns_update(&self.dns_state, &addrs);
        if update.is_empty() {
            None
        } else {
            Some(update)
        }
    }

    /// Takes in the provider's answer to an update from `finish_tick`.
    pub fn dns_update_finished(&mut self, update: DnsUpdate, ok: bool)
        requires
            old(self).inv(),
            update.wf(),
        ensures
            final(self).inv(),
            final(self).spec_health_check() == old(self).spec_health_check(),
            final(self)@ == after_dns_result(
                old(self)@,
                update.spec_new_state().spec_v4(),
                update.spec_new_state().spec_v6(),
                ok,
            ),
    {
        self.dns_state.record_result(update, ok);
    }
}

/// One step of the service as the caller drives it.
pub enum Step {
    Event(WatchEvent),
    StartTick,
    FinishTick(Seq<(IpAddress, bool)>),
    DnsResult(Set<u32>, Set<u128>, bool),
}

/// The view after a step.
pub open spec fn after_step(v: ControllerView, step: Step) -> ControllerView {
    match step {
        Step::Event(e) => after_event(v, e),
        Step::StartTick => after_start_tick(v),
        Step::FinishTick(rs) => after_finish_tick(v, rs),
        Step::DnsResult(v4, v6, ok) => after_dns_result(v, v4, v6, ok),
    }
}

/// The view after a run of steps.
pub open spec fn after_steps(v: ControllerView, steps: Seq<Step>) -> ControllerView
    decreases steps.len(),
{
    if steps.len() == 0 {
        v
    } else {
        after_step(after_steps(v, steps.drop_last()), steps.last())
    }
}

/// How many ticks end in `steps`.
pub open spec fn ticks_in(steps: Seq<Step>) -> nat
    decreases steps.len(),
{
    if steps.len() == 0 {
        0
    } else {
        ticks_in(steps.drop_last()) + if steps.last() is FinishTick {
            1nat
        } else {
            0nat
        }
    }
}

/// Whether some tick of the run from `v` through `steps` sends a DNS update.
pub open spec fn run_updates_dns(v: ControllerView, steps: Seq<Step>) -> bool
    decreases steps.len(),
{
    if steps.len() == 0 {
        false
    } else {
        run_updates_dns(v, steps.drop_last()) || match steps.last() {
            Step::FinishTick(rs) => update_wanted(after_steps(v, steps.drop_last()), rs),
            _ => false,
        }
    }
}

/// An `Init` event empties the node table and suspends all changes.
pub proof fn lemma_init_resets_and_suspends(v: ControllerView)
    ensures
        after_event(v, WatchEvent::Init).suspend,
        after_event(v, WatchEvent::Init).nodes == Map::<Seq<char>, Seq<IpAddress>>::empty(),
{
}

/// While suspended, a tick checks nothing, changes nothing and sends no
/// update.
pub proof fn lemma_suspended_ticks_do_nothing(v: ControllerView, rs: Seq<(IpAddress, bool)>)
    requires
        v.suspend,
    ensures
        after_start_tick(v) == v,
        checks_wanted(after_start_tick(v)) == Set::<IpAddress>::empty(),
        after_finish_tick(v, rs) == v,
        !update_wanted(v, rs),
{
}

/// No DNS update is sent during a run that ends no more ticks than the
/// warm-up count; a fresh controller's warm-up count is `checks_to_up`.
pub proof fn lemma_warmup_holds_back_updates(v: ControllerView, steps: Seq<Step>)
    requires
        ticks_in(steps) <= v.warmup_checks,
    ensures
        !run_updates_dns(v, steps),
        after_steps(v, steps).warmup_checks >= v.warmup_checks - ticks_in(steps),
    decreases steps.len(),
{
    if steps.len() > 0 {
        lemma_warmup_holds_back_updates(v, steps.drop_last());
    }
}

/// A successful update is not sent again: with the same nodes and no new
/// check results, the next tick finds the provider in sync.
pub proof fn lemma_successful_update_not_repeated(v: ControllerView, rs: Seq<(IpAddress, bool)>)
    requires
        update_wanted(v, rs),
    ensures
        ({
            let w = after_finish_tick(v, rs);
            let want = desired_addresses(w.thresholds, w.nodes, w.health);
            let z = after_dns_result(w, v4_of(want), v6_of(want), true);
            !update_wanted(z, Seq::empty())
        }),
{
    let w = after_finish_tick(v, rs);
    match w.thresholds {
        Some(t) => {
            assert(after_check_results(w.health, Seq::empty(), t.0, t.1) == w.health);
        },
        None => {},
    }
}

/// A failed update leaves the provider's known state alone, so the next
/// tick with the same nodes and no new check results sends it again.
pub proof fn lemma_failed_update_retried(v: ControllerView, rs: Seq<(IpAddress, bool)>)
    requires
        update_wanted(v, rs),
    ensures
        ({
            let w = after_finish_tick(v, rs);
            let want = desired_addresses(w.thresholds, w.nodes, w.health);
            let z = after_dns_result(w, v4_of(want), v6_of(want), false);
            update_wanted(z, Seq::empty())
        }),
{
    let w = after_finish_tick(v, rs);
    match w.thresholds {
        Some(t) => {
            assert(after_check_results(w.health, Seq::empty(), t.0, t.1) == w.health);
        },
        None => {},
    }
}

/// A deleted node is forgotten.
pub proof fn lemma_delete_forgets_node(v: ControllerView, node: NodeInfo)
    requires
        node.name is Some,
    ensures
        !after_event(v, WatchEvent::Delete(node)).nodes.contains_key(node.name->0@),
{
}

/// With `skip_unschedulable` on, an unschedulable node contributes no
/// addresses, whatever it reports.
pub proof fn lemma_unschedulable_nodes_skipped(v: ControllerView, node: NodeInfo)
    requires
        v.skip_unschedulable,
        node.unschedulable == Some(true),
        node.name is Some,
    ensures
        !after_event(v, WatchEvent::Apply(node)).nodes.contains_key(node.name->0@),
        !after_event(v, WatchEvent::InitApply(node)).nodes.contains_key(node.name->0@),
{
}

/// Check results never add or drop an address.
pub proof fn lemma_results_keep_addresses(
    m: Map<IpAddress, Health>,
    rs: Seq<(IpAddress, bool)>,
    up: usize,
    down: usize,
)
    ensures
        after_check_results(m, rs, up, down).dom() == m.dom(),
    decreases rs.len(),
{
    if rs.len() > 0 {
        lemma_results_keep_addresses(m, rs.drop_last(), up, down);
        let prev = after_check_results(m, rs.drop_last(), up, down);
        if prev.contains_key(rs.last().0) {
            assert(prev.insert(rs.last().0, prev[rs.last().0].next(rs.last().1, up, down)).dom()
                =~= prev.dom());
        }
    }
}

/// With health checks on, a tick watches exactly the addresses of the
/// current nodes, and what it publishes is a subset of them, each healthy.
pub proof fn lemma_published_addresses_are_healthy_node_addresses(
    v: ControllerView,
    rs: Seq<(IpAddress, bool)>,
    a: IpAddress,
)
    requires
        checks_run(v),
    ensures
        after_start_tick(v).health.dom() == addresses_of(v.nodes),
        ({
            let w = after_finish_tick(after_start_tick(v), rs);
            desired_addresses(w.thresholds, w.nodes, w.health).contains(a) ==> addresses_of(
                v.nodes,
            ).contains(a) && w.health[a].spec_is_up()
        }),
{
    let u = after_start_tick(v);
    assert(u.health.dom() =~= addresses_of(v.nodes));
    let t = v.thresholds->0;
    lemma_results_keep_addresses(u.health, rs, t.0, t.1);
}

/// With `checks_to_down` zero, a tick neither checks a healthy address nor
/// changes its health, whatever results are handed in.
pub proof fn lemma_healthy_addresses_left_alone_when_checks_to_down_zero(
    v: ControllerView,
    rs: Seq<(IpAddress, bool)>,
    a: IpAddress,
)
    requires
        checks_run(v),
        (v.thresholds->0).1 == 0,
        after_start_tick(v).health.contains_key(a),
        after_start_tick(v).health[a].spec_is_up(),
    ensures
        !checks_wanted(after_start_tick(v)).contains(a),
        after_finish_tick(after_start_tick(v), rs).health[a] == after_start_tick(v).health[a],
{
    let u = after_start_tick(v);
    let t = v.thresholds->0;
    crate::address_health::lemma_unchecked_address_keeps_health(u.health, rs, t.0, t.1, a);
}

/// A checked address with one result in the tick takes exactly that result,
/// as one step of its health.
pub proof fn lemma_checked_address_takes_its_result(
    v: ControllerView,
    rs: Seq<(IpAddress, bool)>,
    i: int,
)
    requires
        checks_run(v),
        0 <= i < rs.len(),
        checks_wanted(after_start_tick(v)).contains(rs[i].0),
        forall|j: int| 0 <= j < rs.len() && j != i ==> rs[j].0 != rs[i].0,
    ensures
        ({
            let u = after_start_tick(v);
            let t = v.thresholds->0;
            after_finish_tick(u, rs).health[rs[i].0] == u.health[rs[i].0].next(rs[i].1, t.0, t.1)
        }),
{
    let u = after_start_tick(v);
    let t = v.thresholds->0;
    crate::address_health::lemma_checked_address_takes_its_result(u.health, rs, t.0, t.1, i);
}

/// A named node that reports no address list, or no entry of type
/// `ExternalIP` with a parsed address, leaves the node table, whatever was
/// known of it before.
pub proof fn lemma_node_without_external_address_dropped(v: ControllerView, node: NodeInfo)
    requires
        node.name is Some,
        match node.addresses {
            None => true,
            Some(list) => forall|i: int|
                0 <= i < list@.len() ==> !(list@[i].kind@ == "ExternalIP"@ && list@[i].address is Some),
        },
    ensures
        !after_event(v, WatchEvent::Apply(node)).nodes.contains_key(node.name->0@),
        !after_event(v, WatchEvent::InitApply(node)).nodes.contains_key(node.name->0@),
{
    match node.addresses {
        None => {},
        Some(list) => {
            crate::nodes::lemma_no_external_address(list@);
        },
    }
}

/// A named node that is not skipped as unschedulable and reports some
/// external address is recorded with exactly the addresses of its entries
/// of type `ExternalIP`, replacing what was known of it.
pub proof fn lemma_node_recorded_with_its_external_addresses(
    v: ControllerView,
    node: NodeInfo,
    a: IpAddress,
)
    requires
        node.name is Some,
        !(v.skip_unschedulable && node.unschedulable == Some(true)),
        node.addresses is Some,
        exists|i: int|
            0 <= i < node.addresses->0@.len() && node.addresses->0@[i].kind@ == "ExternalIP"@
                && node.addresses->0@[i].address is Some,
    ensures
        after_event(v, WatchEvent::Apply(node)).nodes.contains_key(node.name->0@),
        after_event(v, WatchEvent::Apply(node)).nodes[node.name->0@].contains(a) <==> exists|i: int|
            0 <= i < node.addresses->0@.len() && node.addresses->0@[i].kind@ == "ExternalIP"@
                && node.addresses->0@[i].address == Some(a),
{
    let list = node.addresses->0@;
    crate::nodes::lemma_no_external_address(list);
    crate::nodes::lemma_external_addresses_members(list, a);
}

/// A tick that is neither suspended nor warming up sends an update as soon
/// as either family's wanted set differs from what the provider holds, and
/// only then.
pub proof fn lemma_any_family_change_sends_update(v: ControllerView, rs: Seq<(IpAddress, bool)>)
    requires
        !v.suspend,
        v.warmup_checks == 0,
    ensures
        ({
            let w = after_finish_tick(v, rs);
            let want = desired_addresses(w.thresholds, w.nodes, w.health);
            &&& v6_of(want) != v.v6 ==> update_wanted(v, rs)
            &&& v4_of(want) != v.v4 ==> update_wanted(v, rs)
            &&& update_wanted(v, rs) ==> v4_of(want) != v.v4 || v6_of(want) != v.v6
        }),
{
}

/// Through the start of a tick, an address that stays among the nodes'
/// addresses keeps its health.
pub proof fn lemma_staying_address_keeps_health_through_start_tick(v: ControllerView, a: IpAddress)
    requires
        v.health.contains_key(a),
        addresses_of(v.nodes).contains(a),
    ensures
        after_start_tick(v).health.contains_key(a),
        after_start_tick(v).health[a] == v.health[a],
{
    if checks_run(v) {
        crate::address_health::lemma_reconcile_keeps_staying_health(v.health, addresses_of(v.nodes), a);
    }
}

} // verus!

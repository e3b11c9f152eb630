use vstd::prelude::*;

use crate::addr::IpAddress;
use vstd::laws_eq::obeys_concrete_eq;

pub mod cloudflare;
pub mod route53;
pub mod simulated;

verus! {

/// The IPv4 addresses among `addrs`.
pub open spec fn v4_set(addrs: Seq<IpAddress>) -> Set<u32> {
    Set::new(|x: u32| addrs.contains(IpAddress::V4(x)))
}

/// The IPv6 addresses among `addrs`.
pub open spec fn v6_set(addrs: Seq<IpAddress>) -> Set<u128> {
    Set::new(|x: u128| addrs.contains(IpAddress::V6(x)))
}

/// The records the DNS provider is known to hold for the hostname.
pub struct DnsState {
    v4addrs: Vec<u32>,
    v6addrs: Vec<u128>,
}

/// A change to send to the DNS provider: for each family, the complete new
/// list of addresses where that family changed.  `new_state` is what the
/// provider holds once the change went through.
pub struct DnsUpdate {
    v4addrs: Option<Vec<u32>>,
    v6addrs: Option<Vec<u128>>,
    new_state: DnsState,
}

impl DnsState {
    /// Each address is listed once.
    pub closed spec fn wf(&self) -> bool {
        self.v4addrs@.no_duplicates() && self.v6addrs@.no_duplicates()
    }

    /// The published IPv4 addresses, in the order they are listed.
    pub closed spec fn v4_list(&self) -> Seq<u32> {
        self.v4addrs@
    }

    /// The published IPv6 addresses, in the order they are listed.
    pub closed spec fn v6_list(&self) -> Seq<u128> {
        self.v6addrs@
    }

    pub closed spec fn spec_v4(&self) -> Set<u32> {
        self.v4addrs@.to_set()
    }

    pub closed spec fn spec_v6(&self) -> Set<u128> {
        self.v6addrs@.to_set()
    }

    /// Nothing published yet.
    pub fn new() -> (r: Self)
        ensures
            r.wf(),
            r.spec_v4() == Set::<u32>::empty(),
            r.spec_v6() == Set::<u128>::empty(),
    {
        let r = DnsState { v4addrs: Vec::new(), v6addrs: Vec::new() };
        assert(r.spec_v4() =~= Set::<u32>::empty());
        assert(r.spec_v6() =~= Set::<u128>::empty());
        r
    }

    /// The published IPv4 addresses.
    pub fn v4addrs(&self) -> (r: &Vec<u32>)
        requires
            self.wf(),
        ensures
            r@ == self.v4_list(),
            r@.no_duplicates(),
            r@.to_set() == self.spec_v4(),
    {
        &self.v4addrs
    }

    /// The published IPv6 addresses.
    pub fn v6addrs(&self) -> (r: &Vec<u128>)
        requires
            self.wf(),
        ensures
            r@ == self.v6_list(),
            r@.no_duplicates(),
            r@.to_set() == self.spec_v6(),
    {
        &self.v6addrs
    }

    /// Takes in the outcome of sending `update`: on success the provider now
    /// holds its new state; on failure nothing is known to have changed.
    pub fn record_result(&mut self, update: DnsUpdate, ok: bool)
        requires
            old(self).wf(),
            update.wf(),
        ensures
            final(self).wf(),
            ok ==> final(self).spec_v4() == update.spec_new_state().spec_v4()
                && final(self).spec_v6() == update.spec_new_state().spec_v6(),
            !ok ==> *final(self) == *old(self),
    {
        if ok {
            *self = update.new_state;
        }
    }
}

impl DnsUpdate {
    pub closed spec fn wf(&self) -> bool {
        &&& self.new_state.wf()
        &&& self.v4addrs is Some ==> self.v4addrs->0@ == self.new_state.v4addrs@
        &&& self.v6addrs is Some ==> self.v6addrs->0@ == self.new_state.v6addrs@
    }

    pub closed spec fn spec_new_state(&self) -> DnsState {
        self.new_state
    }

    /// The IPv4 list to send, where that family changed.
    pub closed spec fn spec_v4addrs(&self) -> Option<Seq<u32>> {
        match self.v4addrs {
            Some(v) => Some(v@),
            None => None,
        }
    }

    /// The IPv6 list to send, where that family changed.
    pub closed spec fn spec_v6addrs(&self) -> Option<Seq<u128>> {
        match self.v6addrs {
            Some(v) => Some(v@),
            None => None,
        }
    }

    /// Whether there is anything to send.
    pub fn is_empty(&self) -> (r: bool)
        ensures
            r == (self.spec_v4addrs() is None && self.spec_v6addrs() is None),
    {
        self.v4addrs.is_none() && self.v6addrs.is_none()
    }

    /// The IPv4 list to send, where that family changed.
    pub fn v4addrs(&self) -> (r: Option<Vec<u32>>)
        ensures
            r is Some == self.spec_v4addrs() is Some,
            r is Some ==> r->0@ == self.spec_v4addrs()->0,
    {
        match &self.v4addrs {
            Some(v) => Some(v.clone()),
            None => None,
        }
    }

    /// The IPv6 list to send, where that family changed.
    pub fn v6addrs(&self) -> (r: Option<Vec<u128>>)
        ensures
            r is Some == self.spec_v6addrs() is Some,
            r is Some ==> r->0@ == self.spec_v6addrs()->0,
    {
        match &self.v6addrs {
            Some(v) => Some(v.clone()),
            None => None,
        }
    }

    /// The state the provider holds once this update went through.
    pub fn new_state(&self) -> (r: &DnsState)
        ensures
            *r == self.spec_new_state(),
    {
        &self.new_state
    }
}

/// Whether `v` holds `x`.
fn contains_value<T: PartialEq + Copy>(v: &Vec<T>, x: T) -> (r: bool)
    requires
        obeys_concrete_eq::<T>(),
    ensures
        r == v@.contains(x),
{
    proof {
        reveal(obeys_concrete_eq);
    }
    let n = v.len();
    let mut i: usize = 0;
    while i < n
        invariant
            n == v@.len(),
            i <= n,
            obeys_concrete_eq::<T>(),
            forall|j: int| 0 <= j < i ==> v@[j] != x,
        decreases n - i,
    {
        proof {
            reveal(obeys_concrete_eq);
        }
        if v[i] == x {
            return true;
        }
        i = i + 1;
    }
    false
}

/// Whether every element of `a` is in `b`.
fn subset<T: PartialEq + Copy>(a: &Vec<T>, b: &Vec<T>) -> (r: bool)
    requires
        obeys_concrete_eq::<T>(),
    ensures
        r == (forall|x: T| a@.contains(x) ==> b@.contains(x)),
{
    let n = a.len();
    let mut i: usize = 0;
    while i < n
        invariant
            n == a@.len(),
            i <= n,
            obeys_concrete_eq::<T>(),
            forall|j: int| 0 <= j < i ==> b@.contains(#[trigger] a@[j]),
        decreases n - i,
    {
        if !contains_value(b, a[i]) {
            assert(a@.contains(a@[i as int]));
            return false;
        }
        i = i + 1;
    }
    assert forall|x: T| a@.contains(x) implies b@.contains(x) by {
        let j = choose|j: int| 0 <= j < a@.len() && a@[j] == x;
    }
    true
}

/// Widens a list of IPv4 numbers to addresses.
pub fn v4_addresses(v: &Vec<u32>) -> (r: Vec<IpAddress>)
    ensures
        r@ == v@.map_values(|x: u32| IpAddress::V4(x)),
{
    let mut r: Vec<IpAddress> = Vec::new();
    let n = v.len();
    let mut i: usize = 0;
    while i < n
        invariant
            n == v@.len(),
            i <= n,
            r@ == v@.subrange(0, i as int).map_values(|x: u32| IpAddress::V4(x)),
        decreases n - i,
    {
        r.push(IpAddress::V4(v[i]));
        assert(v@.subrange(0, i + 1).map_values(|x: u32| IpAddress::V4(x)) =~= v@.subrange(
            0,
            i as int,
        ).map_values(|x: u32| IpAddress::V4(x)).push(IpAddress::V4(v@[i as int])));
        i = i + 1;
    }
    assert(v@.subrange(0, n as int) =~= v@);
    r
}

/// Widens a list of IPv6 numbers to addresses.
pub fn v6_addresses(v: &Vec<u128>) -> (r: Vec<IpAddress>)
    ensures
        r@ == v@.map_values(|x: u128| IpAddress::V6(x)),
{
    let mut r: Vec<IpAddress> = Vec::new();
    let n = v.len();
    let mut i: usize = 0;
    while i < n
        invariant
            n == v@.len(),
            i <= n,
            r@ == v@.subrange(0, i as int).map_values(|x: u128| IpAddress::V6(x)),
        decreases n - i,
    {
        r.push(IpAddress::V6(v[i]));
        assert(v@.subrange(0, i + 1).map_values(|x: u128| IpAddress::V6(x)) =~= v@.subrange(
            0,
            i as int,
        ).map_values(|x: u128| IpAddress::V6(x)).push(IpAddress::V6(v@[i as int])));
        i = i + 1;
    }
    assert(v@.subrange(0, n as int) =~= v@);
    r
}

/// Splits `addrs` by family, each address once.
pub fn split_families(addrs: &Vec<IpAddress>) -> (r: DnsState)
    ensures
        r.wf(),
        r.spec_v4() == v4_set(addrs@),
        r.spec_v6() == v6_set(addrs@),
{
    proof {
        broadcast use vstd::laws_eq::group_laws_eq;

    }
    let mut v4: Vec<u32> = Vec::new();
    let mut v6: Vec<u128> = Vec::new();
    let n = addrs.len();
    let mut i: usize = 0;
    while i < n
        invariant
            n == addrs@.len(),
            i <= n,
            v4@.no_duplicates(),
            v6@.no_duplicates(),
            forall|x: u32| v4@.contains(x) <==> addrs@.subrange(0, i as int).contains(IpAddress::V4(x)),
            forall|x: u128| v6@.contains(x) <==> addrs@.subrange(0, i as int).contains(IpAddress::V6(x)),
        decreases n - i,
    {
        let a = addrs[i];
        let ghost s0 = addrs@.subrange(0, i as int);
        let ghost s1 = addrs@.subrange(0, i + 1);
        assert(s1 =~= s0.push(a));
        let ghost b4 = v4@;
        let ghost b6 = v6@;
        match a {
            IpAddress::V4(x) => {
                if !contains_value(&v4, x) {
                    v4.push(x);
                    assert forall|p: int, q: int| 0 <= p < v4@.len() && 0 <= q < v4@.len() && p != q implies v4@[p] != v4@[q] by {
                        if p < b4.len() && q < b4.len() {
                        } else if p < b4.len() {
                            assert(b4.contains(v4@[p]));
                        } else {
                            assert(b4.contains(v4@[q]));
                        }
                    }
                }
            },
            IpAddress::V6(x) => {
                if !contains_value(&v6, x) {
                    v6.push(x);
                    assert forall|p: int, q: int| 0 <= p < v6@.len() && 0 <= q < v6@.len() && p != q implies v6@[p] != v6@[q] by {
                        if p < b6.len() && q < b6.len() {
                        } else if p < b6.len() {
                            assert(b6.contains(v6@[p]));
                        } else {
                            assert(b6.contains(v6@[q]));
                        }
                    }
                }
            },
        }
        proof {
            assert forall|x: u32| v4@.contains(x) <==> s1.contains(IpAddress::V4(x)) by {
                if v4@.contains(x) && !b4.contains(x) {
                    assert(v4@ == b4.push(x)) by {
                        let p = choose|p: int| 0 <= p < v4@.len() && v4@[p] == x;
                        if p < b4.len() {
                            assert(b4.contains(x));
                        }
                    }
                }
                if b4.contains(x) {
                    let p = choose|p: int| 0 <= p < b4.len() && b4[p] == x;
                    assert(v4@[p] == x);
                }
                if s1.contains(IpAddress::V4(x)) {
                    let p = choose|p: int| 0 <= p < s1.len() && s1[p] == IpAddress::V4(x);
                    if p < s0.len() {
                        assert(s0[p] == s1[p]);
                    } else {
                        assert(a == IpAddress::V4(x));
                        if !b4.contains(x) {
                            assert(v4@[v4@.len() - 1] == x);
                        }
                    }
                }
                if s0.contains(IpAddress::V4(x)) {
                    let p = choose|p: int| 0 <= p < s0.len() && s0[p] == IpAddress::V4(x);
                    assert(s1[p] == s0[p]);
                }
                if v4@.contains(x) && !b4.contains(x) {
                    assert(s1[s0.len() as int] == IpAddress::V4(x));
                }
            }
            assert forall|x: u128| v6@.contains(x) <==> s1.contains(IpAddress::V6(x)) by {
                if v6@.contains(x) && !b6.contains(x) {
                    assert(v6@ == b6.push(x)) by {
                        let p = choose|p: int| 0 <= p < v6@.len() && v6@[p] == x;
                        if p < b6.len() {
                            assert(b6.contains(x));
                        }
                    }
                }
                if b6.contains(x) {
                    let p = choose|p: int| 0 <= p < b6.len() && b6[p] == x;
                    assert(v6@[p] == x);
                }
                if s1.contains(IpAddress::V6(x)) {
                    let p = choose|p: int| 0 <= p < s1.len() && s1[p] == IpAddress::V6(x);
                    if p < s0.len() {
                        assert(s0[p] == s1[p]);
                    } else {
                        assert(a == IpAddress::V6(x));
                        if !b6.contains(x) {
                            assert(v6@[v6@.len() - 1] == x);
                        }
                    }
                }
                if s0.contains(IpAddress::V6(x)) {
                    let p = choose|p: int| 0 <= p < s0.len() && s0[p] == IpAddress::V6(x);
                    assert(s1[p] == s0[p]);
                }
                if v6@.contains(x) && !b6.contains(x) {
                    assert(s1[s0.len() as int] == IpAddress::V6(x));
                }
            }
        }
        i = i + 1;
    }
    assert(addrs@.subrange(0, n as int) =~= addrs@);
    let r = DnsState { v4addrs: v4, v6addrs: v6 };
    assert(r.spec_v4() =~= v4_set(addrs@));
    assert(r.spec_v6() =~= v6_set(addrs@));
    r
}

/// Compares the addresses that should be published with what the provider
/// holds, and lists per family what must be sent.
pub fn plan_dns_update(existing: &DnsState, addrs: &Vec<IpAddress>) -> (r: DnsUpdate)
    requires
        existing.wf(),
    ensures
        r.wf(),
        r.spec_new_state().spec_v4() == v4_set(addrs@),
        r.spec_new_state().spec_v6() == v6_set(addrs@),
        r.spec_v4addrs() is Some <==> v4_set(addrs@) != existing.spec_v4(),
        r.spec_v6addrs() is Some <==> v6_set(addrs@) != existing.spec_v6(),
        r.spec_v4addrs() is Some ==> r.spec_v4addrs()->0.no_duplicates()
            && r.spec_v4addrs()->0.to_set() == v4_set(addrs@),
        r.spec_v6addrs() is Some ==> r.spec_v6addrs()->0.no_duplicates()
            && r.spec_v6addrs()->0.to_set() == v6_set(addrs@),
{
    proof {
        broadcast use vstd::laws_eq::group_laws_eq;

    }
    let new_state = split_families(addrs);
    let same4 = subset(&new_state.v4addrs, &existing.v4addrs) && subset(
        &existing.v4addrs,
        &new_state.v4addrs,
    );
    let same6 = subset(&new_state.v6addrs, &existing.v6addrs) && subset(
        &existing.v6addrs,
        &new_state.v6addrs,
    );
    proof {
        if same4 {
            assert(new_state.spec_v4() =~= existing.spec_v4());
        } else {
            if new_state.spec_v4() == existing.spec_v4() {
                assert forall|x: u32| new_state.v4addrs@.contains(x) <==> existing.v4addrs@.contains(x) by {
                    assert(new_state.spec_v4().contains(x) == existing.spec_v4().contains(x));
                }
            }
        }
        if same6 {
            assert(new_state.spec_v6() =~= existing.spec_v6());
        } else {
            if new_state.spec_v6() == existing.spec_v6() {
                assert forall|x: u128| new_state.v6addrs@.contains(x) <==> existing.v6addrs@.contains(x) by {
                    assert(new_state.spec_v6().contains(x) == existing.spec_v6().contains(x));
                }
            }
        }
    }
    let v4addrs = if same4 { None } else { Some(new_state.v4addrs.clone()) };
    let v6addrs = if same6 { None } else { Some(new_state.v6addrs.clone()) };
    DnsUpdate { v4addrs, v6addrs, new_state }
}

} // verus!

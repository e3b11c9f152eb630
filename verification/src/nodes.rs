use vstd::prelude::*;

use crate::addr::IpAddress;
use crate::assoc::{
    assoc_map, distinct_keys, has_key, lemma_assoc_at, lemma_assoc_empty, lemma_assoc_push,
    lemma_assoc_remove, lemma_assoc_update,
};

verus! {

/// One entry of a node's status address list: its type as reported by the
/// cluster (such as `ExternalIP`), and the address if it parsed as an IP.
pub struct NodeAddress {
    pub kind: String,
    pub address: Option<IpAddress>,
}

/// What the watcher reports of a node, as far as the service reads it.
pub struct NodeInfo {
    /// The node's name, if its metadata carries one.
    pub name: Option<String>,
    /// `spec.unschedulable`, where the node has a spec that sets it.
    pub unschedulable: Option<bool>,
    /// `status.addresses`, where the node has a status that lists them.
    pub addresses: Option<Vec<NodeAddress>>,
}

/// The addresses of type `ExternalIP` that parsed as IP addresses, in order.
pub open spec fn external_addresses(s: Seq<NodeAddress>) -> Seq<IpAddress>
    decreases s.len(),
{
    if s.len() == 0 {
        Seq::empty()
    } else {
        let rest = external_addresses(s.drop_last());
        let last = s.last();
        if last.kind@ == "ExternalIP"@ && last.address is Some {
            rest.push(last.address->0)
        } else {
            rest
        }
    }
}

/// The node's external addresses, or nothing where it reports no status,
/// no address list, or no usable external address.
pub open spec fn spec_node_addresses(node: NodeInfo) -> Option<Seq<IpAddress>> {
    match node.addresses {
        None => None,
        Some(list) => {
            let found = external_addresses(list@);
            if found.len() == 0 {
                None
            } else {
                Some(found)
            }
        },
    }
}

/// Collects the external addresses of a node.
pub fn get_node_addresses(node: &NodeInfo) -> (r: Option<Vec<IpAddress>>)
    ensures
        r is Some == spec_node_addresses(*node) is Some,
        r is Some ==> r->0@ == spec_node_addresses(*node)->0,
{
    let list = match &node.addresses {
        None => {
            return None;
        },
        Some(list) => list,
    };
    let external: String = "ExternalIP".to_owned();
    let mut found: Vec<IpAddress> = Vec::new();
    let n = list.len();
    let mut i: usize = 0;
    while i < n
        invariant
            n == list@.len(),
            i <= n,
            external@ == "ExternalIP"@,
            found@ == external_addresses(list@.subrange(0, i as int)),
        decreases n - i,
    {
        let entry = &list[i];
        assert(list@.subrange(0, i + 1).drop_last() =~= list@.subrange(0, i as int));
        if entry.kind == external {
            match entry.address {
                Some(a) => {
                    found.push(a);
                },
                None => {},
            }
        }
        i = i + 1;
    }
    assert(list@.subrange(0, n as int) =~= list@);
    if found.len() == 0 {
        None
    } else {
        Some(found)
    }
}

/// An address is among a list's external addresses exactly when some
/// entry of the list has type `ExternalIP` and that address.
pub proof fn lemma_external_addresses_members(s: Seq<NodeAddress>, a: IpAddress)
    ensures
        external_addresses(s).contains(a) <==> exists|i: int|
            0 <= i < s.len() && s[i].kind@ == "ExternalIP"@ && s[i].address == Some(a),
    decreases s.len(),
{
    if s.len() > 0 {
        let init = s.drop_last();
        lemma_external_addresses_members(init, a);
        let prev = external_addresses(init);
        let e = external_addresses(s);
        if e.contains(a) {
            let k = choose|k: int| 0 <= k < e.len() && e[k] == a;
            if k < prev.len() {
                assert(prev[k] == a);
                assert(prev.contains(a));
                let i = choose|i: int|
                    0 <= i < init.len() && init[i].kind@ == "ExternalIP"@ && init[i].address == Some(a);
                assert(s[i] == init[i]);
            } else {
                assert(s[s.len() - 1].address == Some(a));
            }
        }
        if exists|i: int| 0 <= i < s.len() && s[i].kind@ == "ExternalIP"@ && s[i].address == Some(a) {
            let i = choose|i: int|
                0 <= i < s.len() && s[i].kind@ == "ExternalIP"@ && s[i].address == Some(a);
            if i < s.len() - 1 {
                assert(init[i] == s[i]);
                assert(prev.contains(a));
                let k = choose|k: int| 0 <= k < prev.len() && prev[k] == a;
                assert(e[k] == a);
            } else {
                assert(e[e.len() - 1] == a);
            }
        }
    }
}

/// A list's external addresses are empty exactly when no entry has type
/// `ExternalIP` and a parsed address.
pub proof fn lemma_no_external_address(s: Seq<NodeAddress>)
    ensures
        external_addresses(s).len() == 0 <==> forall|i: int|
            0 <= i < s.len() ==> !(s[i].kind@ == "ExternalIP"@ && s[i].address is Some),
{
    if external_addresses(s).len() > 0 {
        let a = external_addresses(s)[0];
        lemma_external_addresses_members(s, a);
        assert(external_addresses(s).contains(a));
    }
    if exists|i: int| 0 <= i < s.len() && s[i].kind@ == "ExternalIP"@ && s[i].address is Some {
        let i = choose|i: int| 0 <= i < s.len() && s[i].kind@ == "ExternalIP"@ && s[i].address is Some;
        let a = s[i].address->0;
        lemma_external_addresses_members(s, a);
    }
}

/// A named node with the addresses it contributes.
pub struct NodeEntry {
    pub name: String,
    pub addresses: Vec<IpAddress>,
}

/// The nodes currently known, each with its non-empty address list.
pub struct NodeTable {
    entries: Vec<NodeEntry>,
}

/// Every address listed for some node of `m`.
pub open spec fn addresses_of(m: Map<Seq<char>, Seq<IpAddress>>) -> Set<IpAddress> {
    Set::new(|a: IpAddress| exists|n: Seq<char>| #[trigger] m.contains_key(n) && m[n].contains(a))
}

impl View for NodeTable {
    type V = Map<Seq<char>, Seq<IpAddress>>;

    closed spec fn view(&self) -> Map<Seq<char>, Seq<IpAddress>> {
        assoc_map(self.pairs())
    }
}

impl NodeTable {
    closed spec fn pairs(self) -> Seq<(Seq<char>, Seq<IpAddress>)> {
        Seq::new(
            self.entries@.len(),
            |i: int| (self.entries@[i].name@, self.entries@[i].addresses@),
        )
    }

    /// No node is listed twice.
    pub closed spec fn wf(self) -> bool {
        distinct_keys(self.pairs())
    }

    pub fn new() -> (t: Self)
        ensures
            t.wf(),
            t@ == Map::<Seq<char>, Seq<IpAddress>>::empty(),
    {
        let t = NodeTable { entries: Vec::new() };
        proof {
            lemma_assoc_empty(t.pairs());
        }
        t
    }

    pub fn clear(&mut self)
        ensures
            final(self).wf(),
            final(self)@ == Map::<Seq<char>, Seq<IpAddress>>::empty(),
    {
        self.entries = Vec::new();
        proof {
            lemma_assoc_empty(self.pairs());
        }
    }

    fn find(&self, name: &String) -> (r: Option<usize>)
        requires
            self.wf(),
        ensures
            match r {
                Some(i) => i < self.pairs().len() && self.pairs()[i as int].0 == name@,
                None => !has_key(self.pairs(), name@),
            },
    {
        let n = self.entries.len();
        let mut i: usize = 0;
        while i < n
            invariant
                n == self.entries@.len(),
                i <= n,
                forall|j: int| 0 <= j < i ==> self.pairs()[j].0 != name@,
            decreases n - i,
        {
            if self.entries[i].name == *name {
                return Some(i);
            }
            i = i + 1;
        }
        None
    }

    /// Forgets a node.
    pub fn remove(&mut self, name: &String)
        requires
            old(self).wf(),
        ensures
            final(self).wf(),
            final(self)@ == old(self)@.remove(name@),
    {
        match self.find(name) {
            None => {
                assert(self@ =~= self@.remove(name@));
            },
            Some(i) => {
                let ghost before = self.pairs();
                self.entries.remove(i);
                proof {
                    assert(self.pairs() =~= before.remove(i as int));
                    lemma_assoc_remove(before, i as int);
                }
            },
        }
    }

    /// Records a node with its addresses, replacing what was known of it.
    pub fn insert(&mut self, name: String, addresses: Vec<IpAddress>)
        requires
            old(self).wf(),
        ensures
            final(self).wf(),
            final(self)@ == old(self)@.insert(name@, addresses@),
    {
        let ghost before = self.pairs();
        let ghost key = name@;
        let ghost value = addresses@;
        match self.find(&name) {
            None => {
                self.entries.push(NodeEntry { name, addresses });
                proof {
                    assert(self.pairs() =~= before.push((key, value)));
                    lemma_assoc_push(before, key, value);
                }
            },
            Some(i) => {
                self.entries.set(i, NodeEntry { name, addresses });
                proof {
                    assert(self.pairs() =~= before.update(i as int, (before[i as int].0, value)));
                    lemma_assoc_update(before, i as int, value);
                }
            },
        }
    }

    /// Every address of every known node, possibly with repetitions.
    pub fn all_addresses(&self) -> (r: Vec<IpAddress>)
        requires
            self.wf(),
        ensures
            forall|a: IpAddress| r@.contains(a) <==> addresses_of(self@).contains(a),
    {
        let ghost p = self.pairs();
        let mut r: Vec<IpAddress> = Vec::new();
        let n = self.entries.len();
        let mut i: usize = 0;
        while i < n
            invariant
                n == self.entries@.len(),
                p == self.pairs(),
                i <= n,
                forall|a: IpAddress|
                    r@.contains(a) <==> exists|k: int| 0 <= k < i && (#[trigger] p[k]).1.contains(a),
            decreases n - i,
        {
            let addrs = &self.entries[i].addresses;
            let m = addrs.len();
            let mut j: usize = 0;
            while j < m
                invariant
                    n == self.entries@.len(),
                    p == self.pairs(),
                    i < n,
                    addrs@ == p[i as int].1,
                    m == addrs@.len(),
                    j <= m,
                    forall|a: IpAddress|
                        r@.contains(a) <==> (exists|k: int| 0 <= k < i && (#[trigger] p[k]).1.contains(a))
                            || (exists|x: int| 0 <= x < j && addrs@[x] == a),
                decreases m - j,
            {
                let ghost before = r@;
                let ghost jj = j as int;
                r.push(addrs[j]);
                j = j + 1;
                proof {
                    assert forall|a: IpAddress|
                        r@.contains(a) <==> (exists|k: int| 0 <= k < i && (#[trigger] p[k]).1.contains(a))
                            || (exists|x: int| 0 <= x < j && addrs@[x] == a) by {
                        if r@.contains(a) {
                            let x = choose|x: int| 0 <= x < r@.len() && r@[x] == a;
                            if x < before.len() {
                                assert(before[x] == a);
                                assert(before.contains(a));
                            } else {
                                assert(addrs@[jj] == a);
                            }
                        }
                        if before.contains(a) {
                            let x = choose|x: int| 0 <= x < before.len() && before[x] == a;
                            assert(r@[x] == a);
                        }
                        if exists|x: int| 0 <= x < j && addrs@[x] == a {
                            let x = choose|x: int| 0 <= x < j && addrs@[x] == a;
                            if x == jj {
                                assert(r@[before.len() as int] == a);
                            } else {
                                assert(before.contains(a));
                                let y = choose|y: int| 0 <= y < before.len() && before[y] == a;
                                assert(r@[y] == a);
                            }
                        }
                    }
                }
            }
            proof {
                assert forall|a: IpAddress|
                    r@.contains(a) <==> exists|k: int| 0 <= k < i + 1 && (#[trigger] p[k]).1.contains(a) by {
                    if exists|x: int| 0 <= x < m && addrs@[x] == a {
                        let x = choose|x: int| 0 <= x < m && addrs@[x] == a;
                        assert(p[i as int].1[x] == a);
                        assert(p[i as int].1.contains(a));
                    }
                    if exists|k: int| 0 <= k < i + 1 && (#[trigger] p[k]).1.contains(a) {
                        let k = choose|k: int| 0 <= k < i + 1 && (#[trigger] p[k]).1.contains(a);
                        if k == i {
                            let x = choose|x: int| 0 <= x < addrs@.len() && addrs@[x] == a;
                            assert(0 <= x < m && addrs@[x] == a);
                        }
                    }
                }
            }
            i = i + 1;
        }
        proof {
            assert forall|a: IpAddress| r@.contains(a) <==> addresses_of(self@).contains(a) by {
                if r@.contains(a) {
                    let k = choose|k: int| 0 <= k < n && (#[trigger] p[k]).1.contains(a);
                    lemma_assoc_at(p, k);
                    assert(self@.contains_key(p[k].0) && self@[p[k].0].contains(a));
                }
                if addresses_of(self@).contains(a) {
                    let nm = choose|nm: Seq<char>| #[trigger] self@.contains_key(nm) && self@[nm].contains(a);
                    let k = choose|k: int| 0 <= k < p.len() && p[k].0 == nm;
                    lemma_assoc_at(p, k);
                    assert(p[k].1.contains(a));
                }
            }
        }
        r
    }
}

} // verus!

use vstd::prelude::*;

use crate::addr::IpAddress;
use crate::dns::cloudflare::{v4_option, v6_option};
use crate::dns::{v4_addresses, v6_addresses, DnsState};

verus! {

/// Record type of a Route 53 record set.
#[derive(Clone, Copy, Debug, PartialEq, Eq, Structural)]
pub enum RrType {
    A,
    Aaaa,
}

/// What a change does to its record set.
#[derive(Clone, Copy, Debug, PartialEq, Eq, Structural)]
pub enum ChangeAction {
    /// Create the record set, or replace it where it exists.
    Upsert,
    /// Delete the record set, which must hold exactly the given values.
    Delete,
}

/// One change of a Route 53 change batch on the record set `name`/`rr_type`:
/// an upsert makes it hold exactly `values` with the given TTL; a delete
/// removes it, naming the values and TTL it holds.
pub struct RecordSetChange {
    pub action: ChangeAction,
    pub name: String,
    pub rr_type: RrType,
    pub ttl: i64,
    pub values: Vec<IpAddress>,
}

/// `c` applies `action` to the record set `hostname`/`rr_type` with `addrs`.
pub open spec fn is_change_of(
    c: RecordSetChange,
    action: ChangeAction,
    hostname: Seq<char>,
    rr_type: RrType,
    ttl: u32,
    addrs: Seq<IpAddress>,
) -> bool {
    &&& c.action == action
    &&& c.name@ == hostname
    &&& c.rr_type == rr_type
    &&& c.ttl == ttl as i64
    &&& c.values@ == addrs
}

fn change_for_addrs(
    action: ChangeAction,
    addrs: &Vec<IpAddress>,
    rr_type: RrType,
    hostname: String,
    ttl: u32,
) -> (r: Option<RecordSetChange>)
    ensures
        r is None <==> addrs@.len() == 0,
        r is Some ==> is_change_of(r->0, action, hostname@, rr_type, ttl, addrs@),
{
    if addrs.len() == 0 {
        return None;
    }
    Some(RecordSetChange { action, name: hostname, rr_type, ttl: ttl as i64, values: addrs.clone() })
}

/// The change that makes the record set of the given type hold `addrs`, or
/// nothing for an empty list.
pub fn create_change_for_addrs(addrs: &Vec<IpAddress>, rr_type: RrType, hostname: String, ttl: u32) -> (r:
    Option<RecordSetChange>)
    ensures
        r is None <==> addrs@.len() == 0,
        r is Some ==> is_change_of(r->0, ChangeAction::Upsert, hostname@, rr_type, ttl, addrs@),
{
    change_for_addrs(ChangeAction::Upsert, addrs, rr_type, hostname, ttl)
}

/// The change that deletes the record set of the given type, which holds
/// `addrs`, or nothing for an empty list.
pub fn create_delete_for_addrs(addrs: &Vec<IpAddress>, rr_type: RrType, hostname: String, ttl: u32) -> (r:
    Option<RecordSetChange>)
    ensures
        r is None <==> addrs@.len() == 0,
        r is Some ==> is_change_of(r->0, ChangeAction::Delete, hostname@, rr_type, ttl, addrs@),
{
    change_for_addrs(ChangeAction::Delete, addrs, rr_type, hostname, ttl)
}

/// The change one family needs: an upsert where addresses are wanted; where
/// the wanted list is empty, a delete of what was published, if anything
/// was; nothing where the family is absent.
pub open spec fn family_change(new: Option<Seq<IpAddress>>, previous: Seq<IpAddress>) -> Option<
    (ChangeAction, Seq<IpAddress>),
> {
    match new {
        None => None,
        Some(v) => if v.len() > 0 {
            Some((ChangeAction::Upsert, v))
        } else if previous.len() > 0 {
            Some((ChangeAction::Delete, previous))
        } else {
            None
        },
    }
}

fn family_plan(
    new: Option<Vec<IpAddress>>,
    previous: Vec<IpAddress>,
    rr_type: RrType,
    hostname: &String,
    ttl: u32,
) -> (r: Option<RecordSetChange>)
    ensures
        r is Some <==> family_change(
            match new {
                Some(v) => Some(v@),
                None => None,
            },
            previous@,
        ) is Some,
        r is Some ==> ({
            let c = family_change(
                match new {
                    Some(v) => Some(v@),
                    None => None,
                },
                previous@,
            )->0;
            is_change_of(r->0, c.0, hostname@, rr_type, ttl, c.1)
        }),
{
    match new {
        None => None,
        Some(v) => {
            if v.len() > 0 {
                create_change_for_addrs(&v, rr_type, hostname.clone(), ttl)
            } else {
                create_delete_for_addrs(&previous, rr_type, hostname.clone(), ttl)
            }
        },
    }
}

/// The change batch for an update, A before AAAA, where `previous` is what
/// the zone holds: a family given as absent gets no change, one given as
/// empty has its published record set deleted.  An empty batch means
/// nothing is to be sent.
pub fn plan_changes(
    hostname: &String,
    ttl: u32,
    v4_addrs: Option<Vec<u32>>,
    v6_addrs: Option<Vec<u128>>,
    previous: &DnsState,
) -> (r: Vec<RecordSetChange>)
    requires
        previous.wf(),
    ensures
        ({
            let c4 = family_change(
                v4_option(v4_addrs),
                previous.v4_list().map_values(|x: u32| IpAddress::V4(x)),
            );
            let c6 = family_change(
                v6_option(v6_addrs),
                previous.v6_list().map_values(|x: u128| IpAddress::V6(x)),
            );
            &&& r@.len() == (if c4 is Some { 1int } else { 0int }) + (if c6 is Some { 1int } else { 0int })
            &&& c4 is Some ==> is_change_of(r@[0], (c4->0).0, hostname@, RrType::A, ttl, (c4->0).1)
            &&& c6 is Some ==> is_change_of(
                r@[r@.len() - 1],
                (c6->0).0,
                hostname@,
                RrType::Aaaa,
                ttl,
                (c6->0).1,
            )
        }),
{
    let mut changes: Vec<RecordSetChange> = Vec::new();
    let new_v4 = match &v4_addrs {
        Some(v) => Some(v4_addresses(v)),
        None => None,
    };
    let new_v6 = match &v6_addrs {
        Some(v) => Some(v6_addresses(v)),
        None => None,
    };
    match family_plan(new_v4, v4_addresses(previous.v4addrs()), RrType::A, hostname, ttl) {
        Some(c) => changes.push(c),
        None => {},
    }
    match family_plan(new_v6, v6_addresses(previous.v6addrs()), RrType::Aaaa, hostname, ttl) {
        Some(c) => changes.push(c),
        None => {},
    }
    changes
}

/// An upsert makes the record set hold exactly the wanted list: for a
/// non-empty list, the change is an upsert whose values are that list,
/// whatever was published before.  An empty list deletes exactly what was
/// published, and nothing where nothing was.
pub proof fn lemma_family_change_values(
    v: Seq<IpAddress>,
    previous: Seq<IpAddress>,
    other_previous: Seq<IpAddress>,
)
    ensures
        v.len() > 0 ==> family_change(Some(v), previous) is Some
            && (family_change(Some(v), previous)->0).0 == ChangeAction::Upsert
            && (family_change(Some(v), previous)->0).1 == v
            && family_change(Some(v), previous) == family_change(Some(v), other_previous),
        v.len() == 0 && previous.len() > 0 ==> family_change(Some(v), previous) is Some
            && (family_change(Some(v), previous)->0).0 == ChangeAction::Delete
            && (family_change(Some(v), previous)->0).1 == previous,
        v.len() == 0 && previous.len() == 0 ==> family_change(Some(v), previous) is None,
        family_change(None, previous) is None,
{
}

} // verus!

//! Port assignments that must remain distinct.

use crate::text::{copy, decimal, decimal_u64};
use std::collections::BTreeMap;
use vstd::prelude::*;

verus! {

broadcast use vstd::std_specs::btree::group_btree_axioms;

/// Port assignments that must remain distinct.
#[derive(Debug)]
pub struct Ports {
    pub services: BTreeMap<u16, String>,
}

impl View for Ports {
    type V = Map<u16, Seq<char>>;

    open spec fn view(&self) -> Map<u16, Seq<char>> {
        Map::new(|port: u16| self.services@.contains_key(port), |port: u16| self.services@[port]@)
    }
}

/// What is said of a service without a fixed port.
pub open spec fn unfixed_text(service: Seq<char>) -> Seq<char> {
    service + " requires a fixed nonzero port"@
}

/// What is said of two services on one port.
pub open spec fn clash_text(port: u16, existing: Seq<char>, service: Seq<char>) -> Seq<char> {
    "port "@ + decimal(port as nat) + " collision between "@ + existing + " and "@ + service
}

/// Assigning `port` to `service`.
pub open spec fn assign(ports: Map<u16, Seq<char>>, service: Seq<char>, port: u16) -> Result<
    Map<u16, Seq<char>>,
    Seq<char>,
> {
    if port == 0 {
        Err(unfixed_text(service))
    } else if ports.contains_key(port) {
        Err(clash_text(port, ports[port], service))
    } else {
        Ok(ports.insert(port, service))
    }
}

/// The name of a service's `i`-th port.
pub open spec fn numbered(service: Seq<char>, i: nat) -> Seq<char> {
    service + " "@ + decimal(i)
}

/// Assigning the first `count` ports from `base` to a service, one by one.
pub open spec fn assign_all(
    ports: Map<u16, Seq<char>>,
    service: Seq<char>,
    base: u16,
    count: nat,
) -> Result<Map<u16, Seq<char>>, Seq<char>>
    decreases count,
{
    if count == 0 {
        Ok(ports)
    } else {
        let last = (count - 1) as nat;
        match assign_all(ports, service, base, last) {
            Ok(before) => assign(before, numbered(service, last), (base + last) as u16),
            Err(text) => Err(text),
        }
    }
}

/// Assigning `count` ports from `base` to a service.
pub open spec fn assign_range(
    ports: Map<u16, Seq<char>>,
    service: Seq<char>,
    base: u16,
    count: nat,
) -> Result<Map<u16, Seq<char>>, Seq<char>> {
    if count > 0 && base + count - 1 > u16::MAX {
        Err(service + " port range overflow"@)
    } else {
        assign_all(ports, service, base, count)
    }
}

/// Whether the port at `k` is the first of the range that is refused, with
/// `after` assigned by then.
pub open spec fn stops_at(
    ports: Map<u16, Seq<char>>,
    service: Seq<char>,
    base: u16,
    k: nat,
    after: Map<u16, Seq<char>>,
) -> bool {
    &&& assign_all(ports, service, base, k) == Ok::<Map<u16, Seq<char>>, Seq<char>>(after)
    &&& assign_all(ports, service, base, k + 1) is Err
}

proof fn lemma_fault_stays(
    ports: Map<u16, Seq<char>>,
    service: Seq<char>,
    base: u16,
    at: nat,
    count: nat,
)
    requires
        at <= count,
        assign_all(ports, service, base, at) is Err,
    ensures
        assign_all(ports, service, base, count) == assign_all(ports, service, base, at),
    decreases count,
{
    if at < count {
        lemma_fault_stays(ports, service, base, at, (count - 1) as nat);
    }
}

impl Ports {
    /// No assignments.
    pub fn new() -> (ports: Self)
        ensures
            ports@ == Map::<u16, Seq<char>>::empty(),
    {
        let ports = Ports { services: BTreeMap::new() };
        assert(ports@ =~= Map::<u16, Seq<char>>::empty());
        ports
    }

    /// Assigns `port` to `service`.
    pub fn insert(&mut self, service: String, port: u16) -> (inserted: Result<(), String>)
        ensures
            match assign(old(self)@, service@, port) {
                Ok(ports) => inserted is Ok && final(self)@ == ports,
                Err(text) => (inserted matches Err(e) && e@ == text) && final(self)@ == old(self)@,
            },
    {
        if port == 0 {
            let mut text = service;
            text.append(" requires a fixed nonzero port");
            return Err(text);
        }
        if let Some(existing) = self.services.get(&port) {
            let number = decimal_u64(port as u64);
            let mut text = copy("port ");
            text.append(number.as_str());
            text.append(" collision between ");
            text.append(existing.as_str());
            text.append(" and ");
            text.append(service.as_str());
            return Err(text);
        }
        let ghost before = self@;
        self.services.insert(port, service);
        assert(self@ =~= before.insert(port, service@));
        Ok(())
    }

    /// Assigns `count` ports from `base` upwards to `service`, whose ports are
    /// numbered from zero. Ports before one that is taken stay assigned.
    pub fn insert_range(&mut self, service: &str, base: u16, count: u32) -> (inserted: Result<
        (),
        String,
    >)
        ensures
            match assign_range(old(self)@, service@, base, count as nat) {
                Ok(ports) => inserted is Ok && final(self)@ == ports,
                Err(text) => (inserted matches Err(e) && e@ == text) && if base + count - 1
                    > u16::MAX {
                    final(self)@ == old(self)@
                } else {
                    exists|k: nat| k < count && #[trigger]
                        stops_at(old(self)@, service@, base, k, final(self)@)
                },
            },
    {
        if count > 0 && base as u64 + count as u64 - 1 > u16::MAX as u64 {
            let mut text = copy(service);
            text.append(" port range overflow");
            return Err(text);
        }
        let ghost before = self@;
        let mut index: u32 = 0;
        while index < count
            invariant
                index <= count,
                count > 0 ==> base + count - 1 <= u16::MAX,
                before == old(self)@,
                assign_all(before, service@, base, index as nat) == Ok::<
                    Map<u16, Seq<char>>,
                    Seq<char>,
                >(self@),
            decreases count - index,
        {
            let number = decimal_u64(index as u64);
            let mut name = copy(service);
            name.append(" ");
            name.append(number.as_str());
            let port: u16 = base + index as u16;
            match self.insert(name, port) {
                Err(text) => {
                    proof {
                        lemma_fault_stays(
                            before,
                            service@,
                            base,
                            (index + 1) as nat,
                            count as nat,
                        );
                        assert(stops_at(before, service@, base, index as nat, self@));
                    }
                    return Err(text);
                },
                Ok(()) => {},
            }
            index = index + 1;
        }
        Ok(())
    }
}

/// Assigning a range keeps every earlier assignment.
pub proof fn assignments_are_kept(
    ports: Map<u16, Seq<char>>,
    service: Seq<char>,
    base: u16,
    count: nat,
    port: u16,
)
    requires
        assign_range(ports, service, base, count) is Ok,
        ports.contains_key(port),
    ensures
        assign_range(ports, service, base, count)->Ok_0.contains_key(port),
        assign_range(ports, service, base, count)->Ok_0[port] == ports[port],
    decreases count,
{
    if count > 0 {
        assignments_are_kept(ports, service, base, (count - 1) as nat, port);
    }
}

/// A range that is assigned holds one port for each number, from the base on,
/// under the service's name and that number, all of them free before and none of
/// them zero.
pub proof fn ranges_are_numbered_from_their_base(
    ports: Map<u16, Seq<char>>,
    service: Seq<char>,
    base: u16,
    count: nat,
    i: nat,
)
    requires
        assign_range(ports, service, base, count) is Ok,
        i < count,
    ensures
        base + i <= u16::MAX,
        base + i != 0,
        !ports.contains_key((base + i) as u16),
        assign_range(ports, service, base, count)->Ok_0.contains_key((base + i) as u16),
        assign_range(ports, service, base, count)->Ok_0[(base + i) as u16] == service + " "@
            + decimal(i),
    decreases count,
{
    let last = (count - 1) as nat;
    if i < last {
        ranges_are_numbered_from_their_base(ports, service, base, last, i);
    } else {
        assert(assign_all(ports, service, base, last) is Ok);
        let before = assign_all(ports, service, base, last)->Ok_0;
        if ports.contains_key((base + i) as u16) {
            assignments_are_kept(ports, service, base, last, (base + i) as u16);
        }
    }
}

/// A port is assigned exactly if it is not zero and free, and then to the service
/// alone; a refusal names the one who has it.
pub proof fn ports_are_assigned_once(
    ports: Map<u16, Seq<char>>,
    service: Seq<char>,
    other: Seq<char>,
    port: u16,
)
    ensures
        assign(ports, service, port) is Ok <==> port != 0 && !ports.contains_key(port),
        assign(ports, service, port) matches Ok(after) ==> {
            &&& after == ports.insert(port, service)
            &&& assign(after, other, port) == Err::<Map<u16, Seq<char>>, Seq<char>>(
                "port "@ + decimal(port as nat) + " collision between "@ + service + " and "@
                    + other,
            )
        },
{
}

} // verus!

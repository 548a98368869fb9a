//! Loopback ports and who owns them.

use crate::text::{copy, decimal, decimal_u64};
use std::collections::BTreeMap;
use vstd::prelude::*;

verus! {

broadcast use vstd::std_specs::btree::group_btree_axioms;

/// Ports that are spoken for, each with its owner.
#[derive(Debug)]
pub struct PortMap {
    pub reserved: BTreeMap<u16, String>,
}

impl View for PortMap {
    type V = Map<u16, Seq<char>>;

    open spec fn view(&self) -> Map<u16, Seq<char>> {
        Map::new(|port: u16| self.reserved@.contains_key(port), |port: u16| self.reserved@[port]@)
    }
}

/// What is said of an owner that has no port number.
pub open spec fn zero_text(owner: Seq<char>) -> Seq<char> {
    "local port for "@ + owner + " must be non-zero"@
}

/// What is said of two owners of one port.
pub open spec fn collision_text(port: u16, existing: Seq<char>, owner: Seq<char>) -> Seq<char> {
    "local port "@ + decimal(port as nat) + " is assigned to both "@ + existing + " and "@ + owner
}

/// What is said of an owner whose preferred port is zero.
pub open spec fn preferred_zero_text(owner: Seq<char>) -> Seq<char> {
    "preferred local port for "@ + owner + " is zero"@
}

/// What is said of an owner for whom no port is left.
pub open spec fn exhausted_text(owner: Seq<char>, preferred: u16) -> Seq<char> {
    "no local port is available for "@ + owner + " at or above "@ + decimal(preferred as nat)
}

/// Giving `port` to `owner`: a port number has one owner.
pub open spec fn reserve(ports: Map<u16, Seq<char>>, port: u16, owner: Seq<char>) -> Result<
    Map<u16, Seq<char>>,
    Seq<char>,
> {
    if port == 0 {
        Err(zero_text(owner))
    } else if ports.contains_key(port) {
        Err(collision_text(port, ports[port], owner))
    } else {
        Ok(ports.insert(port, owner))
    }
}

/// Whether `port` is the first one at or above `from` that nobody owns.
pub open spec fn is_least_free(ports: Map<u16, Seq<char>>, from: u16, port: u16) -> bool {
    &&& from <= port
    &&& !ports.contains_key(port)
    &&& forall|p: u16| from <= p < port ==> #[trigger] ports.contains_key(p)
}

/// The first port at or above `from` that nobody owns.
pub open spec fn least_free(ports: Map<u16, Seq<char>>, from: u16) -> Option<u16> {
    if exists|port: u16| is_least_free(ports, from, port) {
        Some(choose|port: u16| is_least_free(ports, from, port))
    } else {
        None
    }
}

/// Giving `owner` the first free port at or above `preferred`.
pub open spec fn prefer(ports: Map<u16, Seq<char>>, preferred: u16, owner: Seq<char>) -> Result<
    (Map<u16, Seq<char>>, u16),
    Seq<char>,
> {
    if preferred == 0 {
        Err(preferred_zero_text(owner))
    } else {
        match least_free(ports, preferred) {
            Some(port) => Ok((ports.insert(port, owner), port)),
            None => Err(exhausted_text(owner, preferred)),
        }
    }
}

proof fn lemma_least_free(ports: Map<u16, Seq<char>>, from: u16, port: u16)
    requires
        is_least_free(ports, from, port),
    ensures
        least_free(ports, from) == Some(port),
{
    let other = choose|p: u16| is_least_free(ports, from, p);
    assert(is_least_free(ports, from, other));
    if other < port {
        assert(ports.contains_key(other));
    } else if port < other {
        assert(ports.contains_key(port));
    }
}

/// The two texts put together with what stands between and around them.
fn sentence(a: &str, b: &str, c: &str) -> (text: String)
    ensures
        text@ == a@ + b@ + c@,
{
    let mut text = copy(a);
    text.append(b);
    text.append(c);
    text
}

impl PortMap {
    /// No ports.
    pub fn new() -> (ports: Self)
        ensures
            ports@ == Map::<u16, Seq<char>>::empty(),
    {
        let ports = PortMap { reserved: BTreeMap::new() };
        assert(ports@ =~= Map::<u16, Seq<char>>::empty());
        ports
    }

    /// Whether somebody owns `port`.
    pub fn contains(&self, port: u16) -> (taken: bool)
        ensures
            taken == self@.contains_key(port),
    {
        self.reserved.contains_key(&port)
    }

    fn put(&mut self, port: u16, owner: String)
        ensures
            final(self)@ == old(self)@.insert(port, owner@),
    {
        let ghost before = self@;
        self.reserved.insert(port, owner);
        assert(self@ =~= before.insert(port, owner@));
    }

    /// Gives `port` to `owner`.
    pub fn reserve_exact(&mut self, port: u16, owner: String) -> (reserved: Result<(), String>)
        ensures
            match reserve(old(self)@, port, owner@) {
                Ok(ports) => reserved is Ok && final(self)@ == ports,
                Err(text) => (reserved matches Err(e) && e@ == text) && final(self)@ == old(self)@,
            },
    {
        if port == 0 {
            return Err(sentence("local port for ", owner.as_str(), " must be non-zero"));
        }
        if let Some(existing) = self.reserved.get(&port) {
            let number = decimal_u64(port as u64);
            let mut text = copy("local port ");
            text.append(number.as_str());
            text.append(" is assigned to both ");
            text.append(existing.as_str());
            text.append(" and ");
            text.append(owner.as_str());
            return Err(text);
        }
        self.put(port, owner);
        Ok(())
    }

    /// Gives `port` to `owner` unless somebody owns it.
    pub fn reserve_if_free(&mut self, port: u16, owner: String)
        ensures
            final(self)@ == (if old(self)@.contains_key(port) {
                old(self)@
            } else {
                old(self)@.insert(port, owner@)
            }),
    {
        if !self.contains(port) {
            self.put(port, owner);
        }
    }

    pub(crate) fn first_free(&self, from: u16) -> (port: Option<u16>)
        ensures
            port == least_free(self@, from),
    {
        let mut port: u16 = from;
        while self.contains(port)
            invariant
                from <= port,
                forall|p: u16| from <= p < port ==> #[trigger] self@.contains_key(p),
            decreases u16::MAX - port,
        {
            if port == u16::MAX {
                assert forall|p: u16| !is_least_free(self@, from, p) by {
                    if from <= p {
                        assert(self@.contains_key(p));
                    }
                }
                return None;
            }
            port = port + 1;
        }
        proof {
            lemma_least_free(self@, from, port);
        }
        Some(port)
    }

    /// Gives `owner` the first free port at or above `preferred`.
    pub fn reserve_preferred(&mut self, preferred: u16, owner: &str) -> (port: Result<u16, String>)
        ensures
            match prefer(old(self)@, preferred, owner@) {
                Ok((ports, given)) => port == Ok::<u16, String>(given) && final(self)@ == ports,
                Err(text) => (port matches Err(e) && e@ == text) && final(self)@ == old(self)@,
            },
    {
        if preferred == 0 {
            return Err(sentence("preferred local port for ", owner, " is zero"));
        }
        match self.first_free(preferred) {
            Some(port) => {
                self.put(port, copy(owner));
                Ok(port)
            },
            None => Err(exhausted(owner, preferred)),
        }
    }
}

pub(crate) fn exhausted(owner: &str, preferred: u16) -> (text: String)
    ensures
        text@ == exhausted_text(owner@, preferred),
{
    let number = decimal_u64(preferred as u64);
    let mut text = sentence("no local port is available for ", owner, " at or above ");
    text.append(number.as_str());
    text
}

/// A port that was preferred is free before, owned after, and nothing else
/// changes.
pub proof fn preferred_port_is_fresh(ports: Map<u16, Seq<char>>, preferred: u16, owner: Seq<char>)
    ensures
        match prefer(ports, preferred, owner) {
            Ok((after, port)) => {
                &&& port >= preferred
                &&& port != 0
                &&& !ports.contains_key(port)
                &&& after == ports.insert(port, owner)
            },
            Err(_) => true,
        },
{
}

/// A port is given exactly if it is not zero and free, and has one owner from
/// then on; a refusal names both who has it and who asked.
pub proof fn ports_have_one_owner(
    ports: Map<u16, Seq<char>>,
    owner: Seq<char>,
    other: Seq<char>,
    port: u16,
)
    ensures
        reserve(ports, port, owner) is Ok <==> port != 0 && !ports.contains_key(port),
        reserve(ports, port, owner) matches Ok(after) ==> {
            &&& after == ports.insert(port, owner)
            &&& reserve(after, port, other) == Err::<Map<u16, Seq<char>>, Seq<char>>(
                "local port "@ + decimal(port as nat) + " is assigned to both "@ + owner + " and "@
                    + other,
            )
        },
{
}

/// A preferred port that is free is given. One that is taken gives way to the
/// next free one, so that two who prefer the same port get different ones.
pub proof fn preferences_give_way_upwards(
    ports: Map<u16, Seq<char>>,
    preferred: u16,
    owner: Seq<char>,
    other: Seq<char>,
)
    requires
        0 < preferred < u16::MAX,
        !ports.contains_key(preferred),
        !ports.contains_key((preferred + 1) as u16),
    ensures
        ({
            let first = prefer(ports, preferred, owner);
            &&& first == Ok::<(Map<u16, Seq<char>>, u16), Seq<char>>(
                (ports.insert(preferred, owner), preferred),
            )
            &&& prefer(first->Ok_0.0, preferred, other) matches Ok((after, port)) && port
                == preferred + 1 && after[port] == other && after[preferred] == owner
        }),
{
    assert(is_least_free(ports, preferred, preferred));
    let first = least_free(ports, preferred)->0;
    assert(is_least_free(ports, preferred, first));
    assert(first == preferred) by {
        if first > preferred {
            assert(ports.contains_key(preferred));
        }
    }
    let taken = ports.insert(preferred, owner);
    let next = (preferred + 1) as u16;
    assert(is_least_free(taken, preferred, next)) by {
        assert forall|p: u16| preferred <= p < next implies #[trigger] taken.contains_key(p) by {
            assert(p == preferred);
        }
    }
    let second = least_free(taken, preferred)->0;
    assert(is_least_free(taken, preferred, second));
    assert(second == next) by {
        if second > next {
            assert(taken.contains_key(next));
        }
    }
}

} // verus!

//! The complete loopback port allocation of one local deployment.

use crate::deploy::config::{
    indexer_enabled, roles_of, total_secondaries, validate_generate_args, GenerateArgs,
};
use crate::deploy::port_map::{
    is_least_free, least_free, prefer, preferred_port_is_fresh, reserve, PortMap,
};
use crate::deploy::ports::{clash_text, unfixed_text, Ports};
use crate::text::{copy, decimal, decimal_u64};
use vstd::prelude::*;

verus! {

/// Most validators of a local deployment.
pub const MAX_LOCAL_VALIDATORS: u32 = 64;

/// Port the explorer prefers.
pub const DEFAULT_EXPLORER_PORT: u16 = 5173;

/// Where a local deployment's ports start.
#[derive(Clone, Copy, Debug, PartialEq, Eq)]
pub struct LocalArgs {
    pub base_port: u16,
    pub base_http_port: u16,
    pub base_metrics_port: u16,
    pub chain_indexer_port: u16,
    pub chain_indexer_db_parallelism: Option<usize>,
    pub metadata_indexer_port: u16,
    pub qmdb_indexer_port: u16,
}

/// The ports of one node.
#[derive(Clone, Copy, Debug, PartialEq, Eq, Structural)]
pub struct LocalNodePorts {
    pub p2p: u16,
    pub http: u16,
    pub metrics: u16,
}

/// The port `offset` above `base`.
pub open spec fn offset_of(base: u16, offset: nat, owner: Seq<char>) -> Result<u16, Seq<char>> {
    if offset > u16::MAX {
        Err("local port offset for "@ + owner + " does not fit in u16"@)
    } else if base + offset > u16::MAX {
        Err("local port range for "@ + owner + " overflows u16"@)
    } else {
        Ok((base + offset) as u16)
    }
}

/// The port `offset` above `base`.
pub fn offset_port(base: u16, offset: usize, owner: &str) -> (port: Result<u16, String>)
    ensures
        match offset_of(base, offset as nat, owner@) {
            Ok(p) => port == Ok::<u16, String>(p),
            Err(text) => port matches Err(e) && e@ == text,
        },
{
    if offset > u16::MAX as usize {
        let mut text = copy("local port offset for ");
        text.append(owner);
        text.append(" does not fit in u16");
        return Err(text);
    }
    if base as usize > u16::MAX as usize - offset {
        let mut text = copy("local port range for ");
        text.append(owner);
        text.append(" overflows u16");
        return Err(text);
    }
    Ok(base + offset as u16)
}

/// What owns a port of the `i`-th node.
pub open spec fn node_owner(i: nat, kind: Seq<char>) -> Seq<char> {
    "node "@ + decimal(i) + kind
}

fn owner_of(i: usize, kind: &str) -> (owner: String)
    ensures
        owner@ == node_owner(i as nat, kind@),
{
    let number = decimal_u64(i as u64);
    let mut owner = copy("node ");
    owner.append(number.as_str());
    owner.append(kind);
    owner
}

/// The ports of the `i`-th node.
pub open spec fn node_ports(local: LocalArgs, i: int) -> LocalNodePorts {
    LocalNodePorts {
        p2p: (local.base_port + i) as u16,
        http: (local.base_http_port + i) as u16,
        metrics: (local.base_metrics_port + i) as u16,
    }
}

/// Reserving the ports of the `i`-th node.
pub open spec fn plan_node(ports: Map<u16, Seq<char>>, local: LocalArgs, i: nat) -> Result<
    Map<u16, Seq<char>>,
    Seq<char>,
> {
    match offset_of(local.base_port, i, "node p2p"@) {
        Err(e) => Err(e),
        Ok(p2p) => match offset_of(local.base_http_port, i, "node HTTP"@) {
            Err(e) => Err(e),
            Ok(http) => match offset_of(local.base_metrics_port, i, "node metrics"@) {
                Err(e) => Err(e),
                Ok(metrics) => match reserve(ports, p2p, node_owner(i, " p2p"@)) {
                    Err(e) => Err(e),
                    Ok(one) => match reserve(one, http, node_owner(i, " HTTP"@)) {
                        Err(e) => Err(e),
                        Ok(two) => reserve(two, metrics, node_owner(i, " metrics"@)),
                    },
                },
            },
        },
    }
}

/// Reserving the ports of the first `n` nodes.
pub open spec fn plan_nodes(local: LocalArgs, n: nat) -> Result<Map<u16, Seq<char>>, Seq<char>>
    decreases n,
{
    if n == 0 {
        Ok(Map::empty())
    } else {
        match plan_nodes(local, (n - 1) as nat) {
            Err(e) => Err(e),
            Ok(ports) => plan_node(ports, local, (n - 1) as nat),
        }
    }
}

/// A service that may get a port: the port it prefers, if it is enabled, and
/// its name.
pub ghost struct Request {
    pub preferred: Option<Result<u16, Seq<char>>>,
    pub owner: Seq<char>,
}

/// Giving each enabled service the first free port at or above the one it
/// prefers, in order.
pub open spec fn serve(ports: Map<u16, Seq<char>>, requests: Seq<Request>) -> Result<
    (Map<u16, Seq<char>>, Seq<Option<u16>>),
    Seq<char>,
>
    decreases requests.len(),
{
    if requests.len() == 0 {
        Ok((ports, Seq::empty()))
    } else {
        match serve(ports, requests.drop_last()) {
            Err(e) => Err(e),
            Ok((before, given)) => match requests.last().preferred {
                None => Ok((before, given.push(None))),
                Some(Err(e)) => Err(e),
                Some(Ok(preferred)) => match prefer(before, preferred, requests.last().owner) {
                    Err(e) => Err(e),
                    Ok((after, port)) => Ok((after, given.push(Some(port)))),
                },
            },
        }
    }
}

/// Nodes of a deployment.
pub open spec fn node_count(args: &GenerateArgs) -> nat {
    (args.validators + roles_of(args).len()) as nat
}

/// How far a service's metrics port lies above the first node's.
pub open spec fn indexer_metrics_offset(args: &GenerateArgs) -> nat {
    node_count(args) + if args.spammer {
        1nat
    } else {
        0
    }
}

/// `preferred` where `enabled`.
pub open spec fn wanted(enabled: bool, preferred: Result<u16, Seq<char>>) -> Option<
    Result<u16, Seq<char>>,
> {
    if enabled {
        Some(preferred)
    } else {
        None
    }
}

/// The services of a deployment, in the order in which they get ports.
pub open spec fn service_requests(args: &GenerateArgs, local: LocalArgs) -> Seq<Request> {
    seq![
        Request {
            preferred: wanted(
                args.spammer,
                offset_of(local.base_metrics_port, node_count(args), "spammer metrics"@),
            ),
            owner: "spammer metrics"@,
        },
        Request {
            preferred: wanted(
                args.indexer,
                offset_of(
                    local.base_metrics_port,
                    indexer_metrics_offset(args),
                    "chain-indexer metrics"@,
                ),
            ),
            owner: "chain-indexer metrics"@,
        },
        Request {
            preferred: wanted(args.indexer, Ok(local.chain_indexer_port)),
            owner: "chain-indexer service"@,
        },
        Request {
            preferred: wanted(args.indexer, Ok(local.metadata_indexer_port)),
            owner: "metadata-indexer service"@,
        },
        Request {
            preferred: wanted(args.indexer, Ok(local.qmdb_indexer_port)),
            owner: "qmdb-indexer service"@,
        },
        Request {
            preferred: wanted(args.indexer, Ok(DEFAULT_EXPLORER_PORT)),
            owner: "explorer service"@,
        },
    ]
}

/// The reserved ports of a deployment and those of its services, or why there
/// is no plan.
pub open spec fn planned(args: &GenerateArgs, local: LocalArgs) -> Result<
    (Map<u16, Seq<char>>, Seq<Option<u16>>),
    Seq<char>,
> {
    if args.validators < 1 {
        Err("need at least one validator"@)
    } else if args.validators > MAX_LOCAL_VALIDATORS {
        Err("local deployments support at most 64 validators"@)
    } else {
        match plan_nodes(local, node_count(args)) {
            Err(e) => Err(e),
            Ok(ports) => serve(ports, service_requests(args, local)),
        }
    }
}

struct ServiceRequest {
    preferred: Option<Result<u16, String>>,
    owner: String,
}

impl ServiceRequest {
    spec fn model(&self) -> Request {
        Request {
            preferred: match self.preferred {
                None => None,
                Some(Ok(port)) => Some(Ok(port)),
                Some(Err(e)) => Some(Err(e@)),
            },
            owner: self.owner@,
        }
    }

    fn new(enabled: bool, preferred: Result<u16, String>, owner: &str) -> (request: Self)
        ensures
            request.model() == (Request {
                preferred: wanted(
                    enabled,
                    match preferred {
                        Ok(port) => Ok(port),
                        Err(e) => Err(e@),
                    },
                ),
                owner: owner@,
            }),
    {
        ServiceRequest {
            preferred: if enabled {
                Some(preferred)
            } else {
                None
            },
            owner: copy(owner),
        }
    }
}

spec fn models(requests: Seq<ServiceRequest>) -> Seq<Request> {
    requests.map_values(|r: ServiceRequest| r.model())
}

proof fn lemma_fault_stays(ports: Map<u16, Seq<char>>, requests: Seq<Request>, at: int)
    requires
        0 <= at <= requests.len(),
        serve(ports, requests.take(at)) is Err,
    ensures
        serve(ports, requests) == serve(ports, requests.take(at)),
    decreases requests.len() - at,
{
    if at == requests.len() {
        assert(requests.take(at) =~= requests);
    } else {
        assert(requests.take(at + 1).drop_last() =~= requests.take(at));
        lemma_fault_stays(ports, requests, at + 1);
    }
}

fn serve_all(ports: &mut PortMap, requests: &Vec<ServiceRequest>) -> (given: Result<
    Vec<Option<u16>>,
    String,
>)
    ensures
        match serve(old(ports)@, models(requests@)) {
            Ok((after, all)) => (given matches Ok(g) && g@ == all) && final(ports)@ == after,
            Err(text) => given matches Err(e) && e@ == text,
        },
{
    let ghost before = ports@;
    let ghost all = models(requests@);
    let mut given: Vec<Option<u16>> = Vec::new();
    let mut i: usize = 0;
    assert(all.take(0) =~= Seq::<Request>::empty());
    assert(given@ =~= Seq::<Option<u16>>::empty());
    while i < requests.len()
        invariant
            i <= requests.len(),
            all == models(requests@),
            before == old(ports)@,
            serve(before, all.take(i as int)) == Ok::<
                (Map<u16, Seq<char>>, Seq<Option<u16>>),
                Seq<char>,
            >((ports@, given@)),
        decreases requests.len() - i,
    {
        let ghost earlier = given@;
        proof {
            assert(all.take(i + 1).drop_last() =~= all.take(i as int));
            assert(all.take(i + 1).last() == requests@[i as int].model());
        }
        match &requests[i].preferred {
            None => given.push(None),
            Some(Err(text)) => {
                proof {
                    lemma_fault_stays(before, all, i + 1);
                }
                return Err(copy(text.as_str()));
            },
            Some(Ok(preferred)) => {
                match ports.reserve_preferred(*preferred, requests[i].owner.as_str()) {
                    Err(text) => {
                        proof {
                            lemma_fault_stays(before, all, i + 1);
                        }
                        return Err(text);
                    },
                    Ok(port) => given.push(Some(port)),
                }
            },
        }
        i = i + 1;
    }
    assert(all.take(all.len() as int) =~= all);
    Ok(given)
}

/// Complete loopback port allocation of one local deployment.
///
/// Node ranges are explicit choices, so they must already be disjoint. Services
/// keep the ports they prefer when those are free, and move upward when not.
#[derive(Debug)]
pub struct LocalPortPlan {
    pub nodes: Vec<LocalNodePorts>,
    pub chain_indexer: Option<u16>,
    pub chain_indexer_metrics: Option<u16>,
    pub metadata_indexer: Option<u16>,
    pub qmdb_indexer: Option<u16>,
    pub explorer: Option<u16>,
    pub spammer_metrics: Option<u16>,
    pub relayer_http: Option<u16>,
    pub reserved: PortMap,
}

proof fn lemma_node_fault_stays(local: LocalArgs, at: nat, n: nat)
    requires
        at <= n,
        plan_nodes(local, at) is Err,
    ensures
        plan_nodes(local, n) == plan_nodes(local, at),
    decreases n,
{
    if at < n {
        lemma_node_fault_stays(local, at, (n - 1) as nat);
    }
}

/// Whether every port of the first `n` nodes is a port number.
pub open spec fn nodes_fit(local: LocalArgs, n: nat) -> bool {
    n > 0 ==> {
        &&& local.base_port + n - 1 <= u16::MAX
        &&& local.base_http_port + n - 1 <= u16::MAX
        &&& local.base_metrics_port + n - 1 <= u16::MAX
    }
}

fn reserve_node(ports: &mut PortMap, local: &LocalArgs, index: usize) -> (node: Result<
    LocalNodePorts,
    String,
>)
    ensures
        match plan_node(old(ports)@, *local, index as nat) {
            Ok(after) => (node matches Ok(n) && n == node_ports(*local, index as int))
                && final(ports)@ == after && nodes_fit(*local, (index + 1) as nat),
            Err(text) => node matches Err(e) && e@ == text,
        },
{
    let p2p: u16 = match offset_port(local.base_port, index, "node p2p") {
        Ok(port) => port,
        Err(e) => return Err(e),
    };
    let http: u16 = match offset_port(local.base_http_port, index, "node HTTP") {
        Ok(port) => port,
        Err(e) => return Err(e),
    };
    let metrics: u16 = match offset_port(local.base_metrics_port, index, "node metrics") {
        Ok(port) => port,
        Err(e) => return Err(e),
    };
    if let Err(e) = ports.reserve_exact(p2p, owner_of(index, " p2p")) {
        return Err(e);
    }
    if let Err(e) = ports.reserve_exact(http, owner_of(index, " HTTP")) {
        return Err(e);
    }
    if let Err(e) = ports.reserve_exact(metrics, owner_of(index, " metrics")) {
        return Err(e);
    }
    Ok(LocalNodePorts { p2p, http, metrics })
}

impl LocalPortPlan {
    /// The services' ports, in the order in which they were given.
    pub open spec fn services(&self) -> Seq<Option<u16>> {
        seq![
            self.spammer_metrics,
            self.chain_indexer_metrics,
            self.chain_indexer,
            self.metadata_indexer,
            self.qmdb_indexer,
            self.explorer,
        ]
    }

    /// Whether this is the plan of a deployment.
    pub open spec fn is_for(&self, args: &GenerateArgs, local: LocalArgs) -> bool {
        &&& planned(args, local) == Ok::<(Map<u16, Seq<char>>, Seq<Option<u16>>), Seq<char>>(
            (self.reserved@, self.services()),
        )
        &&& self.nodes@.len() == node_count(args)
        &&& forall|i: int|
            0 <= i < self.nodes@.len() ==> #[trigger] self.nodes@[i] == node_ports(local, i)
        &&& self.relayer_http == if args.relayer {
            Some(
                node_ports(
                    local,
                    args.validators + if args.indexer {
                        1int
                    } else {
                        0
                    },
                ).http,
            )
        } else {
            None
        }
    }

    /// The plan of a deployment.
    pub fn new(args: &GenerateArgs, local: &LocalArgs) -> (plan: Result<Self, String>)
        ensures
            match planned(args, *local) {
                Ok(_) => plan matches Ok(p) && p.is_for(args, *local),
                Err(text) => plan matches Err(e) && e@ == text,
            },
    {
        if args.validators < 1 {
            return Err(copy("need at least one validator"));
        }
        if args.validators > MAX_LOCAL_VALIDATORS {
            return Err(copy("local deployments support at most 64 validators"));
        }
        let node_total: usize = args.validators as usize + total_secondaries(args) as usize;
        let mut reserved = PortMap::new();
        let mut nodes: Vec<LocalNodePorts> = Vec::new();
        let mut index: usize = 0;
        while index < node_total
            invariant
                index <= node_total,
                node_total == node_count(args),
                1 <= args.validators <= MAX_LOCAL_VALIDATORS,
                plan_nodes(*local, index as nat) == Ok::<Map<u16, Seq<char>>, Seq<char>>(reserved@),
                nodes@.len() == index,
                forall|i: int| 0 <= i < index ==> #[trigger] nodes@[i] == node_ports(*local, i),
            decreases node_total - index,
        {
            match reserve_node(&mut reserved, local, index) {
                Ok(node) => nodes.push(node),
                Err(e) => {
                    proof {
                        lemma_node_fault_stays(*local, (index + 1) as nat, node_total as nat);
                    }
                    return Err(e);
                },
            }
            index = index + 1;
        }
        let enabled = indexer_enabled(args);
        let metrics_offset: usize = if args.spammer {
            node_total + 1
        } else {
            node_total
        };
        let mut requests: Vec<ServiceRequest> = Vec::new();
        requests.push(
            ServiceRequest::new(
                args.spammer,
                offset_port(local.base_metrics_port, node_total, "spammer metrics"),
                "spammer metrics",
            ),
        );
        requests.push(
            ServiceRequest::new(
                enabled,
                offset_port(local.base_metrics_port, metrics_offset, "chain-indexer metrics"),
                "chain-indexer metrics",
            ),
        );
        requests.push(
            ServiceRequest::new(enabled, Ok(local.chain_indexer_port), "chain-indexer service"),
        );
        requests.push(
            ServiceRequest::new(
                enabled,
                Ok(local.metadata_indexer_port),
                "metadata-indexer service",
            ),
        );
        requests.push(
            ServiceRequest::new(enabled, Ok(local.qmdb_indexer_port), "qmdb-indexer service"),
        );
        requests.push(ServiceRequest::new(enabled, Ok(DEFAULT_EXPLORER_PORT), "explorer service"));
        proof {
            assert(models(requests@) =~= service_requests(args, *local));
        }
        let given = match serve_all(&mut reserved, &requests) {
            Ok(given) => given,
            Err(e) => return Err(e),
        };
        proof {
            lemma_serve_length(
                plan_nodes(*local, node_total as nat)->Ok_0,
                service_requests(args, *local),
            );
        }
        let relayer_http: Option<u16> = if args.relayer {
            let secondary: usize = if args.indexer {
                1
            } else {
                0
            };
            Some(nodes[args.validators as usize + secondary].http)
        } else {
            None
        };
        let plan = LocalPortPlan {
            nodes,
            chain_indexer: given[2],
            chain_indexer_metrics: given[1],
            metadata_indexer: given[3],
            qmdb_indexer: given[4],
            explorer: given[5],
            spammer_metrics: given[0],
            relayer_http,
            reserved,
        };
        assert(plan.services() =~= given@);
        Ok(plan)
    }

    /// The ports of a validator.
    pub fn validator(&self, index: u32) -> (ports: LocalNodePorts)
        requires
            index < self.nodes@.len(),
        ensures
            ports == self.nodes@[index as int],
    {
        self.nodes[index as usize]
    }

    /// The ports of a secondary.
    pub fn secondary(&self, validators: u32, index: usize) -> (ports: LocalNodePorts)
        requires
            validators + index < self.nodes@.len(),
        ensures
            ports == self.nodes@[validators + index],
    {
        let count: usize = self.nodes.len();
        self.nodes[validators as usize + index]
    }
}

proof fn lemma_serve_length(ports: Map<u16, Seq<char>>, requests: Seq<Request>)
    ensures
        serve(ports, requests) is Ok ==> serve(ports, requests)->Ok_0.1.len() == requests.len(),
    decreases requests.len(),
{
    if requests.len() > 0 {
        lemma_serve_length(ports, requests.drop_last());
    }
}

/// A service has a port exactly where it is enabled.
pub proof fn enabled_services_have_ports(args: &GenerateArgs, local: LocalArgs)
    requires
        planned(args, local) is Ok,
    ensures
        planned(args, local)->Ok_0.1.len() == 6,
        planned(args, local)->Ok_0.1[0] is Some == args.spammer,
        forall|k: int| 1 <= k < 6 ==> planned(args, local)->Ok_0.1[k] is Some == args.indexer,
{
    let ports = plan_nodes(local, node_count(args))->Ok_0;
    let requests = service_requests(args, local);
    lemma_served_where_wanted(ports, requests);
    let given = serve(ports, requests)->Ok_0.1;
    assert(given[0] is Some == requests[0].preferred is Some);
    assert forall|k: int| 1 <= k < 6 implies given[k] is Some == args.indexer by {
        assert(given[k] is Some == requests[k].preferred is Some);
    }
}

proof fn lemma_served_where_wanted(ports: Map<u16, Seq<char>>, requests: Seq<Request>)
    requires
        serve(ports, requests) is Ok,
    ensures
        serve(ports, requests)->Ok_0.1.len() == requests.len(),
        forall|k: int|
            0 <= k < requests.len() ==> (#[trigger] serve(ports, requests)->Ok_0.1[k] is Some
                == requests[k].preferred is Some),
    decreases requests.len(),
{
    if requests.len() > 0 {
        lemma_served_where_wanted(ports, requests.drop_last());
        let earlier = serve(ports, requests.drop_last())->Ok_0.1;
        let given = serve(ports, requests)->Ok_0.1;
        assert forall|k: int| 0 <= k < requests.len() implies (#[trigger] given[k] is Some
            == requests[k].preferred is Some) by {
            if k < requests.len() - 1 {
                assert(given[k] == earlier[k]);
                assert(requests.drop_last()[k] == requests[k]);
            }
        }
    }
}

/// Whether `port` belongs to one of the first `n` nodes.
pub open spec fn is_node_port(local: LocalArgs, n: nat, port: u16) -> bool {
    exists|i: int|
        0 <= i < n && (#[trigger] node_ports(local, i).p2p == port || node_ports(local, i).http
            == port || node_ports(local, i).metrics == port)
}

/// Whether the three ranges of the first `n` nodes' ports are disjoint.
pub open spec fn ranges_are_disjoint(local: LocalArgs, n: nat) -> bool {
    forall|i: int, j: int|
        0 <= i < n && 0 <= j < n ==> {
            let a = #[trigger] node_ports(local, i);
            let b = #[trigger] node_ports(local, j);
            a.p2p != b.http && a.p2p != b.metrics && a.http != b.metrics
        }
}

proof fn lemma_nodes_are_distinct(local: LocalArgs, n: nat)
    requires
        plan_nodes(local, n) is Ok,
    ensures
        nodes_fit(local, n),
        ranges_are_disjoint(local, n),
        forall|i: int|
            0 <= i < n ==> {
                let node = #[trigger] node_ports(local, i);
                let ports = plan_nodes(local, n)->Ok_0;
                &&& node.p2p != 0 && ports.contains_key(node.p2p)
                &&& node.http != 0 && ports.contains_key(node.http)
                &&& node.metrics != 0 && ports.contains_key(node.metrics)
            },
    decreases n,
{
    if n > 0 {
        let last = (n - 1) as nat;
        lemma_nodes_are_distinct(local, last);
        let before = plan_nodes(local, last)->Ok_0;
        let node = node_ports(local, last as int);
        assert(plan_node(before, local, last) is Ok);
        assert(!before.contains_key(node.p2p) && !before.contains_key(node.http)
            && !before.contains_key(node.metrics));
        assert forall|i: int, j: int| 0 <= i < n && 0 <= j < n implies {
            let a = #[trigger] node_ports(local, i);
            let b = #[trigger] node_ports(local, j);
            a.p2p != b.http && a.p2p != b.metrics && a.http != b.metrics
        } by {
            let a = node_ports(local, i);
            let b = node_ports(local, j);
            if i < last {
                assert(before.contains_key(a.p2p) && before.contains_key(a.http));
            }
            if j < last {
                assert(before.contains_key(b.http) && before.contains_key(b.metrics));
            }
        }
    }
}

proof fn lemma_services_are_distinct(ports: Map<u16, Seq<char>>, requests: Seq<Request>)
    requires
        serve(ports, requests) is Ok,
    ensures
        ({
            let (after, given) = serve(ports, requests)->Ok_0;
            &&& given.len() == requests.len()
            &&& forall|port: u16| ports.contains_key(port) ==> #[trigger] after.contains_key(port)
            &&& forall|k: int|
                0 <= k < given.len() ==> (#[trigger] given[k] matches Some(port) ==> port != 0
                    && !ports.contains_key(port) && after.contains_key(port))
            &&& forall|k: int, l: int|
                0 <= k < l < given.len() ==> (#[trigger] given[k] is Some ==> #[trigger] given[l]
                    is Some ==> given[k] != given[l])
        }),
    decreases requests.len(),
{
    if requests.len() > 0 {
        lemma_services_are_distinct(ports, requests.drop_last());
        let (before, earlier) = serve(ports, requests.drop_last())->Ok_0;
        let (after, given) = serve(ports, requests)->Ok_0;
        let request = requests.last();
        if let Some(Ok(preferred)) = request.preferred {
            preferred_port_is_fresh(before, preferred, request.owner);
        }
        assert forall|k: int| 0 <= k < earlier.len() implies given[k] == earlier[k] by {}
        assert forall|k: int, l: int|
            0 <= k < l < given.len() && #[trigger] given[k] is Some && #[trigger] given[l]
                is Some implies given[k] != given[l] by {
            assert(given[k] == earlier[k]);
            if l < earlier.len() {
                assert(given[l] == earlier[l]);
            }
        }
    }
}

/// Every port of a plan is used once: the nodes' ranges are disjoint, no service
/// has a port of a node or of another service, and no port is zero.
pub proof fn planned_ports_are_unique(args: &GenerateArgs, local: LocalArgs)
    requires
        planned(args, local) is Ok,
    ensures
        ({
            let n = node_count(args);
            let given = planned(args, local)->Ok_0.1;
            &&& nodes_fit(local, n)
            &&& ranges_are_disjoint(local, n)
            &&& forall|i: int|
                0 <= i < n ==> {
                    let node = #[trigger] node_ports(local, i);
                    node.p2p != 0 && node.http != 0 && node.metrics != 0
                }
            &&& forall|k: int|
                0 <= k < given.len() ==> (#[trigger] given[k] matches Some(port) ==> port != 0
                    && !is_node_port(local, n, port))
            &&& forall|k: int, l: int|
                0 <= k < l < given.len() ==> (#[trigger] given[k] is Some ==> #[trigger] given[l]
                    is Some ==> given[k] != given[l])
        }),
{
    let n = node_count(args);
    lemma_nodes_are_distinct(local, n);
    let ports = plan_nodes(local, n)->Ok_0;
    lemma_services_are_distinct(ports, service_requests(args, local));
}

/// A service whose preferred port is free gets it.
pub proof fn free_preference_is_kept(ports: Map<u16, Seq<char>>, preferred: u16, owner: Seq<char>)
    requires
        preferred != 0,
        !ports.contains_key(preferred),
    ensures
        prefer(ports, preferred, owner) == Ok::<(Map<u16, Seq<char>>, u16), Seq<char>>(
            (ports.insert(preferred, owner), preferred),
        ),
{
    assert(is_least_free(ports, preferred, preferred));
    let port = choose|p: u16| is_least_free(ports, preferred, p);
    assert(is_least_free(ports, preferred, port));
    if preferred < port {
        assert(ports.contains_key(preferred));
    }
    assert(least_free(ports, preferred) == Some(preferred));
}

/// What is wrong with the ports that are asked for the chain-indexer.
pub open spec fn chain_indexer_fault(args: &GenerateArgs, local: LocalArgs) -> Option<Seq<char>> {
    if !args.indexer {
        None
    } else {
        match offset_of(
            local.base_metrics_port,
            indexer_metrics_offset(args),
            "chain-indexer metrics"@,
        ) {
            Err(e) => Some(e),
            Ok(metrics) => if local.chain_indexer_port == 0 {
                Some(unfixed_text("chain-indexer Store"@))
            } else if metrics == 0 {
                Some(unfixed_text("chain-indexer metrics"@))
            } else if metrics == local.chain_indexer_port {
                Some(clash_text(metrics, "chain-indexer Store"@, "chain-indexer metrics"@))
            } else {
                None
            },
        }
    }
}

/// Whether the chain-indexer's Store and metrics ports can be told apart. Both
/// are asked for, so neither gives way to the other.
pub fn check_chain_indexer_ports(args: &GenerateArgs, local: &LocalArgs) -> (checked: Result<
    (),
    String,
>)
    requires
        args.validators <= MAX_LOCAL_VALIDATORS,
    ensures
        match chain_indexer_fault(args, *local) {
            None => checked is Ok,
            Some(text) => checked matches Err(e) && e@ == text,
        },
{
    if !indexer_enabled(args) {
        return Ok(());
    }
    let spammers: usize = if args.spammer {
        1
    } else {
        0
    };
    let offset: usize = args.validators as usize + total_secondaries(args) as usize + spammers;
    let metrics: u16 = match offset_port(local.base_metrics_port, offset, "chain-indexer metrics") {
        Ok(port) => port,
        Err(e) => return Err(e),
    };
    let mut ports = Ports::new();
    if let Err(e) = ports.insert(copy("chain-indexer Store"), local.chain_indexer_port) {
        return Err(e);
    }
    ports.insert(copy("chain-indexer metrics"), metrics)
}

/// What keeps a bundle from being generated.
pub open spec fn bundle_fault(args: &GenerateArgs, local: LocalArgs) -> Option<Seq<char>> {
    if args.spammer && !args.relayer {
        Some("--spammer requires --relayer"@)
    } else {
        match planned(args, local) {
            Err(text) => Some(text),
            Ok(_) => chain_indexer_fault(args, local),
        }
    }
}

/// The ports of a bundle, or why none is generated.
pub fn plan_bundle(args: &GenerateArgs, local: &LocalArgs) -> (plan: Result<LocalPortPlan, String>)
    ensures
        match bundle_fault(args, *local) {
            None => plan matches Ok(p) && p.is_for(args, *local),
            Some(text) => plan matches Err(e) && e@ == text,
        },
{
    if let Err(e) = validate_generate_args(args) {
        return Err(e);
    }
    let plan = match LocalPortPlan::new(args, local) {
        Ok(plan) => plan,
        Err(e) => return Err(e),
    };
    if let Err(e) = check_chain_indexer_ports(args, local) {
        return Err(e);
    }
    Ok(plan)
}

proof fn lemma_serve(ports: Map<u16, Seq<char>>, requests: Seq<Request>)
    requires
        serve(ports, requests) is Ok,
    ensures
        ({
            let (after, given) = serve(ports, requests)->Ok_0;
            &&& given.len() == requests.len()
            &&& forall|q: u16| #[trigger]
                ports.contains_key(q) ==> after.contains_key(q) && after[q] == ports[q]
            &&& forall|k: int|
                0 <= k < requests.len() ==> ((#[trigger] given[k]) matches Some(port) ==> {
                    &&& requests[k].preferred matches Some(Ok(preferred))
                    &&& preferred <= port
                    &&& after.contains_key(port)
                    &&& after[port] == requests[k].owner
                    &&& forall|q: u16| preferred <= q < port ==> #[trigger] after.contains_key(q)
                })
        }),
    decreases requests.len(),
{
    if requests.len() > 0 {
        let init = requests.drop_last();
        lemma_serve(ports, init);
        let (before, given) = serve(ports, init)->Ok_0;
        let (after, all) = serve(ports, requests)->Ok_0;
        if let Some(Ok(preferred)) = requests.last().preferred {
            preferred_port_is_fresh(before, preferred, requests.last().owner);
            let port = prefer(before, preferred, requests.last().owner)->Ok_0.1;
            assert(is_least_free(before, preferred, port));
            assert(all == given.push(Some(port)));
            assert(after == before.insert(port, requests.last().owner));
        } else {
            assert(all == given.push(None));
        }
        assert forall|k: int| 0 <= k < requests.len() implies ((#[trigger] all[k]) matches Some(
            port,
        ) ==> {
            &&& requests[k].preferred matches Some(Ok(preferred))
            &&& preferred <= port
            &&& after.contains_key(port)
            &&& after[port] == requests[k].owner
            &&& forall|q: u16| preferred <= q < port ==> #[trigger] after.contains_key(q)
        }) by {
            if k < init.len() {
                assert(all[k] == given[k]);
                assert(init[k] == requests[k]);
            }
        }
    }
}

proof fn lemma_nodes_own(local: LocalArgs, n: nat)
    requires
        plan_nodes(local, n) is Ok,
    ensures
        forall|i: int|
            0 <= i < n ==> {
                let ports = plan_nodes(local, n)->Ok_0;
                let node = #[trigger] node_ports(local, i);
                &&& node.p2p == local.base_port + i
                &&& node.http == local.base_http_port + i
                &&& node.metrics == local.base_metrics_port + i
                &&& ports.contains_key(node.p2p) && ports[node.p2p] == node_owner(
                    i as nat,
                    " p2p"@,
                )
                &&& ports.contains_key(node.http) && ports[node.http] == node_owner(
                    i as nat,
                    " HTTP"@,
                )
                &&& ports.contains_key(node.metrics) && ports[node.metrics] == node_owner(
                    i as nat,
                    " metrics"@,
                )
            },
    decreases n,
{
    if n > 0 {
        lemma_nodes_own(local, (n - 1) as nat);
    }
}

/// The ports of a plan are listed under those who own them. Node `i` has the
/// `i`-th port of each range. A service that is enabled has the first port at or
/// above the one it prefers that nothing before it took, and one that is not
/// enabled has none; the metrics ports of services follow those of the nodes.
pub proof fn ports_are_listed_under_their_owners(
    plan: &LocalPortPlan,
    args: &GenerateArgs,
    local: LocalArgs,
)
    requires
        plan.is_for(args, local),
    ensures
        plan.nodes@.len() == args.validators + (if args.indexer {
            1int
        } else {
            0
        }) + (if args.relayer {
            1int
        } else {
            0
        }),
        forall|i: int|
            0 <= i < plan.nodes@.len() ==> {
                let node = #[trigger] plan.nodes@[i];
                &&& node.p2p == local.base_port + i
                &&& node.http == local.base_http_port + i
                &&& node.metrics == local.base_metrics_port + i
                &&& plan.reserved@[node.p2p] == "node "@ + decimal(i as nat) + " p2p"@
                &&& plan.reserved@[node.http] == "node "@ + decimal(i as nat) + " HTTP"@
                &&& plan.reserved@[node.metrics] == "node "@ + decimal(i as nat) + " metrics"@
            },
        serves(plan, plan.chain_indexer, args.indexer, local.chain_indexer_port as int, "chain-indexer service"@),
        serves(
            plan,
            plan.metadata_indexer,
            args.indexer,
            local.metadata_indexer_port as int,
            "metadata-indexer service"@,
        ),
        serves(plan, plan.qmdb_indexer, args.indexer, local.qmdb_indexer_port as int, "qmdb-indexer service"@),
        serves(plan, plan.explorer, args.indexer, 5173, "explorer service"@),
        serves(
            plan,
            plan.spammer_metrics,
            args.spammer,
            local.base_metrics_port + plan.nodes@.len(),
            "spammer metrics"@,
        ),
        serves(
            plan,
            plan.chain_indexer_metrics,
            args.indexer,
            local.base_metrics_port + plan.nodes@.len() + (if args.spammer {
                1int
            } else {
                0
            }),
            "chain-indexer metrics"@,
        ),
        plan.relayer_http is Some == args.relayer,
        args.relayer ==> plan.relayer_http == Some(plan.nodes@.last().http),
{
    let n = node_count(args);
    let nodes = plan_nodes(local, n)->Ok_0;
    let requests = service_requests(args, local);
    lemma_nodes_own(local, n);
    lemma_serve(nodes, requests);
    let given = plan.services();
    assert(given == planned(args, local)->Ok_0.1);
    enabled_services_have_ports(args, local);
    assert(given[0] == plan.spammer_metrics);
    assert(given[1] == plan.chain_indexer_metrics);
    assert(given[2] == plan.chain_indexer);
    assert(given[3] == plan.metadata_indexer);
    assert(given[4] == plan.qmdb_indexer);
    assert(given[5] == plan.explorer);
    assert forall|i: int| 0 <= i < plan.nodes@.len() implies {
        let node = #[trigger] plan.nodes@[i];
        &&& node.p2p == local.base_port + i
        &&& node.http == local.base_http_port + i
        &&& node.metrics == local.base_metrics_port + i
        &&& plan.reserved@[node.p2p] == "node "@ + decimal(i as nat) + " p2p"@
        &&& plan.reserved@[node.http] == "node "@ + decimal(i as nat) + " HTTP"@
        &&& plan.reserved@[node.metrics] == "node "@ + decimal(i as nat) + " metrics"@
    } by {
        let node = node_ports(local, i);
        assert(plan.nodes@[i] == node);
        assert(nodes.contains_key(node.p2p));
    }
    if args.relayer {
        let last = plan.nodes@.len() - 1;
        assert(plan.nodes@[last] == node_ports(local, last));
    }
}

/// Whether a service has `port` if it is `enabled`: the first one from
/// `preferred` on that is not taken, listed under its name.
pub open spec fn serves(
    plan: &LocalPortPlan,
    port: Option<u16>,
    enabled: bool,
    preferred: int,
    owner: Seq<char>,
) -> bool {
    match port {
        None => !enabled,
        Some(port) => {
            &&& enabled
            &&& preferred <= port
            &&& plan.reserved@.contains_key(port)
            &&& plan.reserved@[port] == owner
            &&& forall|q: u16| preferred <= q < port ==> #[trigger] plan.reserved@.contains_key(q)
        },
    }
}

/// A bundle can be made only of one to 64 validators, with a relayer wherever
/// there is a spammer, and with a Store port that its metrics do not share.
pub proof fn bundles_have_what_they_need(args: &GenerateArgs, local: LocalArgs)
    requires
        bundle_fault(args, local) is None,
    ensures
        1 <= args.validators <= 64,
        args.spammer ==> args.relayer,
        planned(args, local) is Ok,
        args.indexer ==> local.chain_indexer_port != 0 && local.chain_indexer_port
            != local.base_metrics_port + node_count(args) + (if args.spammer {
            1int
        } else {
            0
        }),
{
}

/// Too few and too many validators and a spammer without a relayer are refused,
/// each in its own words.
pub proof fn bundles_are_refused_in_words(args: &GenerateArgs, local: LocalArgs)
    ensures
        args.spammer && !args.relayer ==> bundle_fault(args, local) == Some(
            "--spammer requires --relayer"@,
        ),
        args.validators < 1 && (args.spammer ==> args.relayer) ==> bundle_fault(args, local)
            == Some("need at least one validator"@),
        args.validators > 64 && (args.spammer ==> args.relayer) ==> bundle_fault(args, local)
            == Some("local deployments support at most 64 validators"@),
{
}

} // verus!

use vstd::prelude::*;
use crate::endpoint::{spec_same_endpoint, spec_same_ip_version, Endpoint, EndpointArea, Protocol};
use crate::error::{P2pError, P2pErrorCode, P2pResult};

verus! {

/// One listener to open: the endpoint it binds, the mapped WAN endpoint it
/// is reached on from outside, if any, and the port a mapping forwards to it.
#[derive(Clone, Copy, Debug)]
pub struct ListenPlan {
    pub local: Endpoint,
    pub outer: Option<Endpoint>,
    pub mapping_port: Option<u16>,
}

/// A mapped WAN endpoint may stand for the local endpoint after it: same IP
/// version and protocol, and not itself a static WAN endpoint.
pub open spec fn spec_pairs_with(mapped: Endpoint, local: Endpoint) -> bool {
    spec_same_ip_version(local, mapped) && local.protocol == mapped.protocol && !(local.area
        == EndpointArea::Wan || local.area == EndpointArea::Mapped)
}

/// The first port mapping whose source is `ep`, if any.
pub open spec fn spec_first_mapping(m: Seq<(Endpoint, u16)>, ep: Endpoint) -> Option<int> {
    if exists|j: int| 0 <= j < m.len() && spec_same_endpoint(#[trigger] m[j].0, ep) {
        Some(
            choose|j: int|
                0 <= j < m.len() && spec_same_endpoint(#[trigger] m[j].0, ep) && forall|k: int|
                    0 <= k < j ==> !spec_same_endpoint(#[trigger] m[k].0, ep),
        )
    } else {
        None
    }
}

/// The port the first mapping of `ep` forwards to, and the mappings left.
pub open spec fn spec_take_mapping(m: Seq<(Endpoint, u16)>, ep: Endpoint) -> (Option<u16>, Seq<(Endpoint, u16)>) {
    match spec_first_mapping(m, ep) {
        Some(j) => (Some(m[j].1), m.remove(j)),
        None => (None, m),
    }
}

/// The listeners to open for `eps` from position `i` on, with the port
/// mappings `m` not taken yet. A mapped WAN endpoint stands for the local
/// endpoint after it (both are skipped when they do not pair, and a mapped
/// endpoint with nothing after it ends the list); an endpoint whose
/// protocol has no network is skipped; each listener takes the first port
/// mapping of its (mapped or local) endpoint.
pub open spec fn spec_listen_plans(
    eps: Seq<Endpoint>,
    i: int,
    m: Seq<(Endpoint, u16)>,
    networks: Seq<Protocol>,
) -> Seq<ListenPlan>
    decreases eps.len() - i,
{
    if i < 0 || i >= eps.len() {
        Seq::empty()
    } else {
        let ep = eps[i];
        if ep.area == EndpointArea::Mapped {
            if i + 1 == eps.len() {
                Seq::empty()
            } else if !spec_pairs_with(ep, eps[i + 1]) {
                spec_listen_plans(eps, i + 2, m, networks)
            } else if !networks.contains(ep.protocol) {
                spec_listen_plans(eps, i + 2, m, networks)
            } else {
                let (port, rest) = spec_take_mapping(m, ep);
                seq![ListenPlan { local: eps[i + 1], outer: Some(ep), mapping_port: port }]
                    + spec_listen_plans(eps, i + 2, rest, networks)
            }
        } else if !networks.contains(ep.protocol) {
            spec_listen_plans(eps, i + 1, m, networks)
        } else {
            let (port, rest) = spec_take_mapping(m, ep);
            seq![ListenPlan { local: ep, outer: None, mapping_port: port }] + spec_listen_plans(
                eps,
                i + 1,
                rest,
                networks,
            )
        }
    }
}

fn has_network(networks: &[Protocol], protocol: Protocol) -> (r: bool)
    ensures
        r == networks@.contains(protocol),
{
    let mut i: usize = 0;
    while i < networks.len()
        invariant
            i <= networks@.len(),
            forall|k: int| 0 <= k < i ==> networks@[k] != protocol,
        decreases networks.len() - i,
    {
        if networks[i] == protocol {
            assert(networks@[i as int] == protocol);
            return true;
        }
        i = i + 1;
    }
    false
}

/// Takes out the first port mapping of `ep`, answering its port.
fn take_mapping(m: &mut Vec<(Endpoint, u16)>, ep: &Endpoint) -> (r: Option<u16>)
    ensures
        (r, final(m)@) == spec_take_mapping(old(m)@, *ep),
{
    let mut j: usize = 0;
    while j < m.len()
        invariant
            m@ == old(m)@,
            j <= m@.len(),
            forall|k: int| 0 <= k < j ==> !spec_same_endpoint(#[trigger] m@[k].0, *ep),
        decreases m.len() - j,
    {
        if m[j].0.same_as(ep) {
            proof {
                let s = m@;
                let jj = j as int;
                assert(spec_same_endpoint(s[jj].0, *ep));
                let c = choose|c: int|
                    0 <= c < s.len() && spec_same_endpoint(#[trigger] s[c].0, *ep) && forall|k: int|
                        0 <= k < c ==> !spec_same_endpoint(#[trigger] s[k].0, *ep);
                if c < jj {
                    assert(!spec_same_endpoint(s[c].0, *ep));
                }
                if jj < c {
                    assert(!spec_same_endpoint(s[jj].0, *ep));
                }
                assert(c == jj);
            }
            let (_, port) = m.remove(j);
            return Some(port);
        }
        j = j + 1;
    }
    None
}

/// The listeners to open for `endpoints`, given the port mappings and the
/// protocols that have a network; no endpoints at all is refused.
pub fn listen_plan(
    endpoints: &[Endpoint],
    port_mapping: Option<Vec<(Endpoint, u16)>>,
    networks: &[Protocol],
) -> (r: P2pResult<Vec<ListenPlan>>)
    ensures
        endpoints@.len() == 0 ==> r == Err::<Vec<ListenPlan>, P2pError>(
            P2pError { code: P2pErrorCode::InvalidParam },
        ),
        endpoints@.len() > 0 ==> (r matches Ok(plans) && plans@ == spec_listen_plans(
            endpoints@,
            0,
            match port_mapping {
                Some(m) => m@,
                None => Seq::empty(),
            },
            networks@,
        )),
{
    let n = endpoints.len();
    if n == 0 {
        return Err(P2pError::new(P2pErrorCode::InvalidParam));
    }
    let mut mapping: Vec<(Endpoint, u16)> = match port_mapping {
        Some(m) => m,
        None => Vec::new(),
    };
    let ghost eps = endpoints@;
    let ghost nets = networks@;
    let ghost whole = spec_listen_plans(eps, 0, mapping@, nets);
    let mut plans: Vec<ListenPlan> = Vec::new();
    let mut i: usize = 0;
    while i < n
        invariant
            n == eps.len(),
            eps == endpoints@,
            nets == networks@,
            i <= n,
            plans@ + spec_listen_plans(eps, i as int, mapping@, nets) == whole,
        decreases n - i,
    {
        let ep = endpoints[i];
        if ep.area == EndpointArea::Mapped {
            if i + 1 == n {
                assert(spec_listen_plans(eps, i as int, mapping@, nets) == Seq::<ListenPlan>::empty());
                assert(plans@ + Seq::<ListenPlan>::empty() =~= plans@);
                i = n;
            } else {
                let local = endpoints[i + 1];
                let pairs = local.is_same_ip_version(&ep) && local.protocol == ep.protocol
                    && !local.is_static_wan();
                if !pairs || !has_network(networks, ep.protocol) {
                    i = i + 2;
                } else {
                    let ghost before = mapping@;
                    let port = take_mapping(&mut mapping, &ep);
                    let plan = ListenPlan { local, outer: Some(ep), mapping_port: port };
                    let ghost rest = spec_listen_plans(eps, i + 2, mapping@, nets);
                    assert(spec_listen_plans(eps, i as int, before, nets) == seq![plan] + rest);
                    assert(plans@.push(plan) + rest =~= plans@ + (seq![plan] + rest));
                    plans.push(plan);
                    i = i + 2;
                }
            }
        } else {
            if !has_network(networks, ep.protocol) {
                i = i + 1;
            } else {
                let ghost before = mapping@;
                let port = take_mapping(&mut mapping, &ep);
                let plan = ListenPlan { local: ep, outer: None, mapping_port: port };
                let ghost rest = spec_listen_plans(eps, i + 1, mapping@, nets);
                assert(spec_listen_plans(eps, i as int, before, nets) == seq![plan] + rest);
                assert(plans@.push(plan) + rest =~= plans@ + (seq![plan] + rest));
                plans.push(plan);
                i = i + 1;
            }
        }
    }
    assert(spec_listen_plans(eps, i as int, mapping@, nets) == Seq::<ListenPlan>::empty());
    assert(plans@ + Seq::<ListenPlan>::empty() =~= plans@);
    Ok(plans)
}

} // verus!

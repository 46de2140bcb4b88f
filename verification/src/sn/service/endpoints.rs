use vstd::prelude::*;
use crate::endpoint::{
    is_lan_addr, is_non_lan_ipv4_addr, spec_is_lan_addr, spec_is_non_lan_ipv4_addr,
    spec_is_static_wan, spec_same_endpoint, Endpoint, EndpointArea, IpAddr, Protocol, SocketAddr,
};
use crate::error::{P2pError, P2pErrorCode, P2pResult};
use crate::sn::service::peer_manager::CachedPeerInfo;
use crate::sn::nat_probe::MAX_NAT_PROBE_ENDPOINTS;

verus! {

/// Most local endpoints a peer may report at once.
pub const MAX_REPORTED_LOCAL_ENDPOINTS: usize = 32;

/// `s` holds an endpoint that is the same endpoint as `e` (protocol and address).
pub open spec fn spec_contains_endpoint(s: Seq<Endpoint>, e: Endpoint) -> bool {
    exists|i: int| 0 <= i < s.len() && spec_same_endpoint(#[trigger] s[i], e)
}

/// `s` with `e` appended unless the same endpoint is already there.
pub open spec fn spec_push_unique(s: Seq<Endpoint>, e: Endpoint) -> Seq<Endpoint> {
    if spec_contains_endpoint(s, e) {
        s
    } else {
        s.push(e)
    }
}

/// `s` with each of `extras`, in order, appended unless already there.
pub open spec fn spec_extend_unique(s: Seq<Endpoint>, extras: Seq<Endpoint>) -> Seq<Endpoint>
    decreases extras.len(),
{
    if extras.len() == 0 {
        s
    } else {
        spec_push_unique(spec_extend_unique(s, extras.drop_last()), extras.last())
    }
}

/// No two entries of `s` are the same endpoint.
pub open spec fn spec_no_duplicate_endpoints(s: Seq<Endpoint>) -> bool {
    forall|i: int, j: int|
        0 <= i < j < s.len() ==> !spec_same_endpoint(#[trigger] s[i], #[trigger] s[j])
}

/// Whether `endpoints` holds the same endpoint as `endpoint`.
pub fn contains_endpoint(endpoints: &[Endpoint], endpoint: &Endpoint) -> (r: bool)
    ensures
        r == spec_contains_endpoint(endpoints@, *endpoint),
{
    let mut i: usize = 0;
    while i < endpoints.len()
        invariant
            i <= endpoints@.len(),
            forall|j: int| 0 <= j < i ==> !spec_same_endpoint(#[trigger] endpoints@[j], *endpoint),
        decreases endpoints.len() - i,
    {
        if endpoints[i].same_as(endpoint) {
            return true;
        }
        i = i + 1;
    }
    false
}

/// Appends `endpoint` unless the same endpoint is already listed.
pub fn push_unique_endpoint(endpoints: &mut Vec<Endpoint>, endpoint: Endpoint)
    ensures
        final(endpoints)@ == spec_push_unique(old(endpoints)@, endpoint),
{
    if !contains_endpoint(endpoints.as_slice(), &endpoint) {
        endpoints.push(endpoint);
    }
}

proof fn lemma_extend_unique_step(s: Seq<Endpoint>, extras: Seq<Endpoint>, i: int)
    requires
        0 <= i < extras.len(),
    ensures
        spec_extend_unique(s, extras.subrange(0, i + 1)) == spec_push_unique(
            spec_extend_unique(s, extras.subrange(0, i)),
            extras[i],
        ),
{
    assert(extras.subrange(0, i + 1).drop_last() =~= extras.subrange(0, i));
}

/// Appends each of `extras`, in order, unless the same endpoint is already listed.
pub fn extend_unique_endpoints(endpoints: &mut Vec<Endpoint>, extras: &[Endpoint])
    ensures
        final(endpoints)@ == spec_extend_unique(old(endpoints)@, extras@),
{
    let ghost start = endpoints@;
    let mut i: usize = 0;
    assert(extras@.subrange(0, 0) =~= Seq::<Endpoint>::empty());
    while i < extras.len()
        invariant
            i <= extras@.len(),
            endpoints@ == spec_extend_unique(start, extras@.subrange(0, i as int)),
        decreases extras.len() - i,
    {
        proof {
            lemma_extend_unique_step(start, extras@, i as int);
        }
        push_unique_endpoint(endpoints, extras[i]);
        i = i + 1;
    }
    assert(extras@.subrange(0, extras@.len() as int) =~= extras@);
}

/// Keeps the first of each group of same endpoints, in order.
pub fn dedup_endpoints(endpoints: &mut Vec<Endpoint>)
    ensures
        final(endpoints)@ == spec_extend_unique(Seq::empty(), old(endpoints)@),
{
    let mut unique: Vec<Endpoint> = Vec::with_capacity(endpoints.len());
    extend_unique_endpoints(&mut unique, endpoints.as_slice());
    *endpoints = unique;
}

/// The area a reported local endpoint is kept under, or `None` when it is
/// dropped: only TCP and QUIC endpoints with a port are kept, private and
/// link-local addresses as LAN, and a public IPv4 address as WAN only when it
/// is the address the SN saw the peer's tunnel come from.
pub open spec fn spec_sanitized_area(e: Endpoint, observed_ip: Option<IpAddr>) -> Option<EndpointArea> {
    if !(e.protocol == Protocol::Tcp || e.protocol == Protocol::Quic) || e.addr.port == 0 {
        None
    } else if spec_is_lan_addr(e.addr) {
        Some(EndpointArea::Lan)
    } else if spec_is_non_lan_ipv4_addr(e.addr) && observed_ip == Some(e.addr.ip) {
        Some(EndpointArea::Wan)
    } else {
        None
    }
}

/// The reported endpoints that are kept, reclassified, without duplicates.
pub open spec fn spec_sanitize(s: Seq<Endpoint>, observed_ip: Option<IpAddr>) -> Seq<Endpoint>
    decreases s.len(),
{
    if s.len() == 0 {
        Seq::empty()
    } else {
        let prev = spec_sanitize(s.drop_last(), observed_ip);
        match spec_sanitized_area(s.last(), observed_ip) {
            Some(area) => spec_push_unique(prev, Endpoint { area, ..s.last() }),
            None => prev,
        }
    }
}

/// A reported TCP or QUIC endpoint with a port on a private IPv4 address
/// (10.0.0.0/8, 172.16.0.0/12 or 192.168.0.0/16, octet by octet) is kept as
/// a LAN endpoint, whatever address the SN saw the peer on.
pub proof fn lemma_private_reported_endpoint_is_lan(
    e: Endpoint,
    a: u8,
    b: u8,
    c: u8,
    d: u8,
    observed_ip: Option<IpAddr>,
)
    requires
        e.protocol == Protocol::Tcp || e.protocol == Protocol::Quic,
        e.addr.port != 0,
        e.addr.ip == IpAddr::V4((a * 16777216 + b * 65536 + c * 256 + d) as u32),
        a == 10 || (a == 172 && 16 <= b <= 31) || (a == 192 && b == 168),
    ensures
        spec_sanitized_area(e, observed_ip) == Some(EndpointArea::Lan),
        spec_sanitize(seq![e], observed_ip) == seq![Endpoint { area: EndpointArea::Lan, ..e }],
{
    crate::endpoint::lemma_ipv4_private_by_octets(a, b, c, d);
    assert(seq![e].drop_last() =~= Seq::<Endpoint>::empty());
    assert(seq![e].last() == e);
    assert(spec_sanitize(Seq::<Endpoint>::empty(), observed_ip) == Seq::<Endpoint>::empty());
    assert(!spec_contains_endpoint(Seq::<Endpoint>::empty(), Endpoint { area: EndpointArea::Lan, ..e }));
    assert(Seq::<Endpoint>::empty().push(Endpoint { area: EndpointArea::Lan, ..e })
        =~= seq![Endpoint { area: EndpointArea::Lan, ..e }]);
}

/// Sanitizing keeps every reported endpoint it does not drop: each one
/// whose address and transport are usable is in the result, as the same
/// endpoint.
pub proof fn lemma_sanitize_keeps_usable(s: Seq<Endpoint>, observed_ip: Option<IpAddr>, i: int)
    requires
        0 <= i < s.len(),
        spec_sanitized_area(s[i], observed_ip) is Some,
    ensures
        spec_contains_endpoint(spec_sanitize(s, observed_ip), s[i]),
    decreases s.len(),
{
    let init = s.drop_last();
    let prev = spec_sanitize(init, observed_ip);
    let r = spec_sanitize(s, observed_ip);
    if i == s.len() - 1 {
        let e2 = Endpoint { area: spec_sanitized_area(s.last(), observed_ip).unwrap(), ..s.last() };
        if spec_contains_endpoint(prev, e2) {
            let k = choose|k: int| 0 <= k < prev.len() && spec_same_endpoint(#[trigger] prev[k], e2);
            assert(spec_same_endpoint(r[k], s[i]));
        } else {
            assert(spec_same_endpoint(r[prev.len() as int], s[i]));
        }
    } else {
        assert(init[i] == s[i]);
        lemma_sanitize_keeps_usable(init, observed_ip, i);
        let k = choose|k: int| 0 <= k < prev.len() && spec_same_endpoint(#[trigger] prev[k], s[i]);
        match spec_sanitized_area(s.last(), observed_ip) {
            Some(area) => {
                let e2 = Endpoint { area, ..s.last() };
                if !spec_contains_endpoint(prev, e2) {
                    assert(r[k] == prev[k]);
                }
            },
            None => {},
        }
    }
}

fn sanitized_area(e: &Endpoint, observed_ip: Option<IpAddr>) -> (r: Option<EndpointArea>)
    ensures
        r == spec_sanitized_area(*e, observed_ip),
{
    let proto_ok = match e.protocol {
        Protocol::Tcp | Protocol::Quic => true,
        _ => false,
    };
    if !proto_ok || e.addr.port == 0 {
        None
    } else if is_lan_addr(&e.addr) {
        Some(EndpointArea::Lan)
    } else if is_non_lan_ipv4_addr(&e.addr) && observed_ip == Some(e.addr.ip) {
        Some(EndpointArea::Wan)
    } else {
        None
    }
}

/// The local endpoints a peer reported, as the SN keeps them: at most
/// [`MAX_REPORTED_LOCAL_ENDPOINTS`] may be reported, and of them only the
/// usable ones are kept (see [`spec_sanitized_area`]), each once.
pub fn sanitize_reported_endpoints(endpoints: &[Endpoint], observed_tunnel: Option<&Endpoint>) -> (r:
    P2pResult<Vec<Endpoint>>)
    ensures
        endpoints@.len() > MAX_REPORTED_LOCAL_ENDPOINTS ==> r == Err::<Vec<Endpoint>, P2pError>(
            P2pError { code: P2pErrorCode::OutOfLimit },
        ),
        endpoints@.len() <= MAX_REPORTED_LOCAL_ENDPOINTS ==> (r matches Ok(v) && v@ == spec_sanitize(
            endpoints@,
            match observed_tunnel {
                Some(t) => Some(t.addr.ip),
                None => None,
            },
        )),
{
    if endpoints.len() > MAX_REPORTED_LOCAL_ENDPOINTS {
        return Err(P2pError::new(P2pErrorCode::OutOfLimit));
    }
    let observed_ip: Option<IpAddr> = match observed_tunnel {
        Some(t) => Some(t.addr.ip),
        None => None,
    };
    let mut sanitized: Vec<Endpoint> = Vec::with_capacity(endpoints.len());
    let mut i: usize = 0;
    while i < endpoints.len()
        invariant
            i <= endpoints@.len(),
            sanitized@ == spec_sanitize(endpoints@.subrange(0, i as int), observed_ip),
        decreases endpoints.len() - i,
    {
        let ghost next = endpoints@.subrange(0, i + 1);
        assert(next.drop_last() =~= endpoints@.subrange(0, i as int));
        let endpoint = endpoints[i];
        match sanitized_area(&endpoint, observed_ip) {
            Some(area) => {
                let mut endpoint = endpoint;
                endpoint.set_area(area);
                push_unique_endpoint(&mut sanitized, endpoint);
            },
            None => {},
        }
        i = i + 1;
    }
    assert(endpoints@.subrange(0, endpoints@.len() as int) =~= endpoints@);
    Ok(sanitized)
}

/// `endpoint` as the SN saw it, classified: WAN when the peer reported the
/// same endpoint itself, server-reflexive otherwise.
pub open spec fn spec_classify_observed(endpoint: Endpoint, reported: Seq<Endpoint>) -> Endpoint {
    Endpoint {
        area: if spec_contains_endpoint(reported, endpoint) {
            EndpointArea::Wan
        } else {
            EndpointArea::ServerReflexive
        },
        ..endpoint
    }
}

pub fn classify_observed_endpoint(endpoint: Endpoint, reported_eps: &[Endpoint]) -> (r: Endpoint)
    ensures
        r == spec_classify_observed(endpoint, reported_eps@),
{
    let mut endpoint = endpoint;
    if contains_endpoint(reported_eps, &endpoint) {
        endpoint.set_area(EndpointArea::Wan);
    } else {
        endpoint.set_area(EndpointArea::ServerReflexive);
    }
    endpoint
}

/// The port-mapped endpoint on the observed endpoint's IP.
pub open spec fn spec_mapped_from_observed(ep: Endpoint, protocol: Protocol, port: u16) -> Endpoint {
    Endpoint { protocol, addr: SocketAddr { ip: ep.addr.ip, port }, area: EndpointArea::Mapped }
}

pub fn mapped_endpoint_from_observed(ep: &Endpoint, protocol: Protocol, port: u16) -> (r: Endpoint)
    ensures
        r == spec_mapped_from_observed(*ep, protocol, port),
{
    let mut map_ep = Endpoint::new(protocol, SocketAddr::new(ep.addr().ip(), port));
    map_ep.set_area(EndpointArea::Mapped);
    map_ep
}

/// An observed endpoint is itself a candidate unless it is TCP, whose
/// observed source port is not one the peer listens on.
pub fn is_direct_observed_candidate(endpoint: &Endpoint) -> (r: bool)
    ensures
        r == (endpoint.protocol != Protocol::Tcp),
{
    match endpoint.protocol() {
        Protocol::Tcp => false,
        _ => true,
    }
}

/// The observed endpoints that are candidates themselves, classified.
pub open spec fn spec_direct_candidates(observed: Seq<Endpoint>, reported: Seq<Endpoint>) -> Seq<
    Endpoint,
>
    decreases observed.len(),
{
    if observed.len() == 0 {
        Seq::empty()
    } else {
        let prev = spec_direct_candidates(observed.drop_last(), reported);
        if observed.last().protocol != Protocol::Tcp {
            prev.push(spec_classify_observed(observed.last(), reported))
        } else {
            prev
        }
    }
}

/// The mapped endpoints of one observed endpoint, one per reported mapping.
pub open spec fn spec_mapped_for(ep: Endpoint, map_ports: Seq<(Protocol, u16)>) -> Seq<Endpoint> {
    Seq::new(map_ports.len(), |j: int| spec_mapped_from_observed(ep, map_ports[j].0, map_ports[j].1))
}

/// The mapped endpoints of all observed endpoints, observed endpoint by
/// observed endpoint.
pub open spec fn spec_mapped_all(observed: Seq<Endpoint>, map_ports: Seq<(Protocol, u16)>) -> Seq<
    Endpoint,
>
    decreases observed.len(),
{
    if observed.len() == 0 {
        Seq::empty()
    } else {
        spec_mapped_all(observed.drop_last(), map_ports) + spec_mapped_for(observed.last(), map_ports)
    }
}

/// Candidate endpoints of a peer from what the SN observed: the direct
/// candidates, then each mapped endpoint not listed yet.
pub open spec fn spec_observed_candidates(
    observed: Seq<Endpoint>,
    map_ports: Seq<(Protocol, u16)>,
    reported: Seq<Endpoint>,
) -> Seq<Endpoint> {
    spec_extend_unique(spec_direct_candidates(observed, reported), spec_mapped_all(observed, map_ports))
}

pub fn observed_endpoint_candidates(
    observed_ep: &[Endpoint],
    map_ports: &[(Protocol, u16)],
    reported_eps: &[Endpoint],
) -> (r: Vec<Endpoint>)
    ensures
        r@ == spec_observed_candidates(observed_ep@, map_ports@, reported_eps@),
{
    let mut remote_ep: Vec<Endpoint> = Vec::new();
    let mut i: usize = 0;
    while i < observed_ep.len()
        invariant
            i <= observed_ep@.len(),
            remote_ep@ == spec_direct_candidates(observed_ep@.subrange(0, i as int), reported_eps@),
        decreases observed_ep.len() - i,
    {
        assert(observed_ep@.subrange(0, i + 1).drop_last() =~= observed_ep@.subrange(0, i as int));
        if is_direct_observed_candidate(&observed_ep[i]) {
            remote_ep.push(classify_observed_endpoint(observed_ep[i], reported_eps));
        }
        i = i + 1;
    }
    assert(observed_ep@.subrange(0, observed_ep@.len() as int) =~= observed_ep@);
    let ghost base = remote_ep@;
    let mut i: usize = 0;
    assert(observed_ep@.subrange(0, 0) =~= Seq::<Endpoint>::empty());
    while i < observed_ep.len()
        invariant
            i <= observed_ep@.len(),
            remote_ep@ == spec_extend_unique(
                base,
                spec_mapped_all(observed_ep@.subrange(0, i as int), map_ports@),
            ),
        decreases observed_ep.len() - i,
    {
        let ghost done = spec_mapped_all(observed_ep@.subrange(0, i as int), map_ports@);
        let ghost row = spec_mapped_for(observed_ep@[i as int], map_ports@);
        let mut j: usize = 0;
        assert(done + row.subrange(0, 0) =~= done);
        while j < map_ports.len()
            invariant
                i < observed_ep@.len(),
                j <= map_ports@.len(),
                row == spec_mapped_for(observed_ep@[i as int], map_ports@),
                remote_ep@ == spec_extend_unique(base, done + row.subrange(0, j as int)),
            decreases map_ports.len() - j,
        {
            let (protocol, port) = map_ports[j];
            let map_ep = mapped_endpoint_from_observed(&observed_ep[i], protocol, port);
            proof {
                let xs = done + row.subrange(0, j + 1);
                assert(xs.drop_last() =~= done + row.subrange(0, j as int));
                assert(xs.last() == map_ep);
            }
            push_unique_endpoint(&mut remote_ep, map_ep);
            j = j + 1;
        }
        proof {
            let next = observed_ep@.subrange(0, i + 1);
            assert(next.drop_last() =~= observed_ep@.subrange(0, i as int));
            assert(row.subrange(0, map_ports@.len() as int) =~= row);
            assert(spec_mapped_all(next, map_ports@) == done + row);
        }
        i = i + 1;
    }
    assert(observed_ep@.subrange(0, observed_ep@.len() as int) =~= observed_ep@);
    remote_ep
}

/// Endpoints a peer announced in its certificate, then its reported local
/// endpoints not listed yet.
pub fn reported_endpoints_for_peer(peer: &CachedPeerInfo) -> (r: Vec<Endpoint>)
    ensures
        r@ == spec_extend_unique(peer.desc@.endpoints, peer.local_eps@),
{
    let mut endpoints = peer.desc.endpoints();
    extend_unique_endpoints(&mut endpoints, peer.local_eps.as_slice());
    endpoints
}

/// The IPv4 address of a static-WAN endpoint, if it is one.
pub open spec fn spec_static_wan_ipv4(e: Endpoint) -> Option<u32> {
    if spec_is_static_wan(e) {
        match e.addr.ip {
            IpAddr::V4(a) => Some(a),
            IpAddr::V6(_) => None,
        }
    } else {
        None
    }
}

/// The one IPv4 address that all static-WAN IPv4 endpoints of `s` share, if
/// there is at least one such endpoint and they agree.
pub open spec fn spec_unique_static_wan_ipv4(s: Seq<Endpoint>) -> Option<u32> {
    if exists|i: int, j: int|
        0 <= i < s.len() && 0 <= j < s.len() && (#[trigger] spec_static_wan_ipv4(s[i])) is Some
            && (#[trigger] spec_static_wan_ipv4(s[j])) is Some && spec_static_wan_ipv4(s[i])
            != spec_static_wan_ipv4(s[j]) {
        None
    } else if exists|i: int| 0 <= i < s.len() && (#[trigger] spec_static_wan_ipv4(s[i])) is Some {
        spec_static_wan_ipv4(
            s[choose|i: int| 0 <= i < s.len() && (#[trigger] spec_static_wan_ipv4(s[i])) is Some],
        )
    } else {
        None
    }
}

fn static_wan_ipv4(e: &Endpoint) -> (r: Option<u32>)
    ensures
        r == spec_static_wan_ipv4(*e),
{
    if e.is_static_wan() {
        match e.addr.ip {
            IpAddr::V4(a) => Some(a),
            IpAddr::V6(_) => None,
        }
    } else {
        None
    }
}

/// The single static-WAN IPv4 address among `endpoints`, if there is exactly one.
pub fn unique_static_wan_ipv4(endpoints: &[Endpoint]) -> (r: Option<u32>)
    ensures
        r == spec_unique_static_wan_ipv4(endpoints@),
{
    let ghost s = endpoints@;
    let mut found: Option<u32> = None;
    let mut conflict = false;
    let mut i: usize = 0;
    while i < endpoints.len()
        invariant
            s == endpoints@,
            i <= s.len(),
            found is None <==> forall|j: int| 0 <= j < i ==> (#[trigger] spec_static_wan_ipv4(s[j])) is None,
            found matches Some(a) ==> exists|j: int| 0 <= j < i && #[trigger] spec_static_wan_ipv4(s[j]) == Some(a),
            !conflict ==> forall|j: int|
                0 <= j < i && (#[trigger] spec_static_wan_ipv4(s[j])) is Some ==> spec_static_wan_ipv4(s[j]) == found,
            conflict ==> exists|j: int, k: int|
                0 <= j < i && 0 <= k < i && (#[trigger] spec_static_wan_ipv4(s[j])) is Some
                    && (#[trigger] spec_static_wan_ipv4(s[k])) is Some && spec_static_wan_ipv4(s[j])
                    != spec_static_wan_ipv4(s[k]),
        decreases endpoints.len() - i,
    {
        let cur = static_wan_ipv4(&endpoints[i]);
        match cur {
            Some(a) => {
                match found {
                    None => {
                        found = Some(a);
                    },
                    Some(b) => {
                        if a != b {
                            proof {
                                let j = choose|j: int| 0 <= j < i && #[trigger] spec_static_wan_ipv4(s[j]) == Some(b);
                                assert(spec_static_wan_ipv4(s[i as int]) == Some(a));
                                assert(spec_static_wan_ipv4(s[j]) is Some);
                            }
                            conflict = true;
                        }
                    },
                }
            },
            None => {},
        }
        i = i + 1;
    }
    if conflict {
        None
    } else {
        proof {
            if let Some(a) = found {
                let j = choose|j: int| 0 <= j < s.len() && #[trigger] spec_static_wan_ipv4(s[j]) == Some(a);
                assert(spec_static_wan_ipv4(s[j]) is Some);
            }
        }
        found
    }
}

/// A valid NAT-probe configuration: no ports at all, or between two and
/// `max` ports, each non-zero and distinct, with one advertised static-WAN
/// IPv4 address that is neither unspecified, multicast nor broadcast.
pub open spec fn spec_nat_probe_config_ok(ports: Seq<u16>, advertised_ipv4: Option<u32>, max: int) -> bool {
    ports.len() == 0 || {
        &&& 2 <= ports.len() <= max
        &&& forall|i: int| 0 <= i < ports.len() ==> #[trigger] ports[i] != 0
        &&& forall|i: int, j: int| 0 <= i < j < ports.len() ==> #[trigger] ports[i] != #[trigger] ports[j]
        &&& advertised_ipv4 matches Some(ip) && ip != 0 && !(ip / 268435456 == 14) && ip != 0xffff_ffffu32
    }
}

/// Checks the NAT-probe ports an SN is configured with against the static-WAN
/// IPv4 address it advertises.
pub fn validate_nat_probe_config(ports: &[u16], advertised_ipv4: Option<u32>) -> (r: P2pResult<()>)
    ensures
        r is Ok <==> spec_nat_probe_config_ok(ports@, advertised_ipv4, MAX_NAT_PROBE_ENDPOINTS as int),
        r matches Err(e) ==> e.code == P2pErrorCode::InvalidParam,
{
    if ports.len() == 0 {
        return Ok(());
    }
    if ports.len() < 2 || ports.len() > MAX_NAT_PROBE_ENDPOINTS {
        return Err(P2pError::new(P2pErrorCode::InvalidParam));
    }
    let mut i: usize = 0;
    while i < ports.len()
        invariant
            i <= ports@.len(),
            forall|a: int| 0 <= a < i ==> #[trigger] ports@[a] != 0,
            forall|a: int, b: int| 0 <= a < b < i ==> #[trigger] ports@[a] != #[trigger] ports@[b],
        decreases ports.len() - i,
    {
        if ports[i] == 0 {
            return Err(P2pError::new(P2pErrorCode::InvalidParam));
        }
        let mut j: usize = 0;
        while j < i
            invariant
                i < ports@.len(),
                j <= i,
                forall|a: int| 0 <= a < j ==> #[trigger] ports@[a] != ports@[i as int],
            decreases i - j,
        {
            if ports[j] == ports[i] {
                assert(ports@[j as int] == ports@[i as int]);
                return Err(P2pError::new(P2pErrorCode::InvalidParam));
            }
            j = j + 1;
        }
        i = i + 1;
    }
    match advertised_ipv4 {
        None => Err(P2pError::new(P2pErrorCode::InvalidParam)),
        Some(ip) => {
            if ip == 0 || ip / 268435456 == 14 || ip == 0xffff_ffffu32 {
                Err(P2pError::new(P2pErrorCode::InvalidParam))
            } else {
                Ok(())
            }
        },
    }
}

/// The NAT-probe endpoint an SN advertises for one of its probe ports: QUIC
/// on the advertised IPv4 address, known as WAN.
pub open spec fn spec_nat_probe_endpoint(ip: u32, port: u16) -> Endpoint {
    Endpoint {
        protocol: Protocol::Quic,
        addr: SocketAddr { ip: IpAddr::V4(ip), port },
        area: EndpointArea::Wan,
    }
}

/// The NAT-probe endpoints an SN advertises: one per probe port, in order,
/// when it advertises an IPv4 address, and none when it does not.
pub fn advertised_nat_probe_endpoints(ports: &[u16], advertised_ipv4: Option<u32>) -> (r: Vec<Endpoint>)
    ensures
        advertised_ipv4 is None ==> r@.len() == 0,
        advertised_ipv4 matches Some(ip) ==> r@ == ports@.map_values(|p: u16| spec_nat_probe_endpoint(ip, p)),
{
    let mut out: Vec<Endpoint> = Vec::new();
    match advertised_ipv4 {
        None => out,
        Some(ip) => {
            let mut i: usize = 0;
            while i < ports.len()
                invariant
                    i <= ports@.len(),
                    out@ == ports@.take(i as int).map_values(|p: u16| spec_nat_probe_endpoint(ip, p)),
                decreases ports.len() - i,
            {
                let mut ep = Endpoint::new(Protocol::Quic, SocketAddr::new(IpAddr::V4(ip), ports[i]));
                ep.set_area(EndpointArea::Wan);
                out.push(ep);
                assert(ports@.take(i as int + 1) =~= ports@.take(i as int).push(ports@[i as int]));
                i = i + 1;
            }
            assert(ports@.take(ports@.len() as int) =~= ports@);
            out
        },
    }
}

/// Appending unique endpoints never changes what was listed before: the first
/// of two same endpoints is the one kept, area included.
pub proof fn lemma_extend_unique_keeps_prefix(s: Seq<Endpoint>, extras: Seq<Endpoint>)
    ensures
        spec_extend_unique(s, extras).len() >= s.len(),
        spec_extend_unique(s, extras).subrange(0, s.len() as int) == s,
    decreases extras.len(),
{
    if extras.len() > 0 {
        lemma_extend_unique_keeps_prefix(s, extras.drop_last());
        let prev = spec_extend_unique(s, extras.drop_last());
        if !spec_contains_endpoint(prev, extras.last()) {
            assert(prev.push(extras.last()).subrange(0, s.len() as int) =~= prev.subrange(0, s.len() as int));
        }
    }
}

/// Every endpoint listed before, and every endpoint appended, is listed after.
pub proof fn lemma_extend_unique_covers(s: Seq<Endpoint>, extras: Seq<Endpoint>, e: Endpoint)
    ensures
        spec_contains_endpoint(s, e) || spec_contains_endpoint(extras, e) ==> spec_contains_endpoint(
            spec_extend_unique(s, extras),
            e,
        ),
    decreases extras.len(),
{
    if extras.len() > 0 {
        let init = extras.drop_last();
        lemma_extend_unique_covers(s, init, e);
        let prev = spec_extend_unique(s, init);
        let r = spec_extend_unique(s, extras);
        if spec_contains_endpoint(prev, e) {
            let i = choose|i: int| 0 <= i < prev.len() && spec_same_endpoint(#[trigger] prev[i], e);
            assert(r[i] == prev[i]);
        }
        if spec_contains_endpoint(extras, e) && !spec_contains_endpoint(init, e) {
            let i = choose|i: int| 0 <= i < extras.len() && spec_same_endpoint(#[trigger] extras[i], e);
            if i < init.len() {
                assert(init[i] == extras[i]);
            } else {
                if spec_contains_endpoint(prev, extras.last()) {
                    let k = choose|k: int| 0 <= k < prev.len() && spec_same_endpoint(#[trigger] prev[k], extras.last());
                    assert(spec_same_endpoint(r[k], e));
                } else {
                    assert(spec_same_endpoint(r[prev.len() as int], e));
                }
            }
        }
    }
}

/// Appending unique endpoints to a list without duplicates leaves none.
pub proof fn lemma_extend_unique_no_duplicates(s: Seq<Endpoint>, extras: Seq<Endpoint>)
    requires
        spec_no_duplicate_endpoints(s),
    ensures
        spec_no_duplicate_endpoints(spec_extend_unique(s, extras)),
    decreases extras.len(),
{
    if extras.len() > 0 {
        lemma_extend_unique_no_duplicates(s, extras.drop_last());
        let prev = spec_extend_unique(s, extras.drop_last());
        let e = extras.last();
        if !spec_contains_endpoint(prev, e) {
            let r = prev.push(e);
            assert forall|i: int, j: int| 0 <= i < j < r.len() implies !spec_same_endpoint(
                #[trigger] r[i],
                #[trigger] r[j],
            ) by {
                if j == prev.len() {
                    assert(!spec_same_endpoint(prev[i], e));
                } else {
                    assert(r[i] == prev[i] && r[j] == prev[j]);
                }
            }
        }
    }
}

/// Each endpoint appended is an extra that was not listed yet and is the
/// first of its kind among the extras.
pub proof fn lemma_extend_unique_first_seen(s: Seq<Endpoint>, extras: Seq<Endpoint>, k: int)
    requires
        s.len() <= k < spec_extend_unique(s, extras).len(),
    ensures
        exists|j: int|
            0 <= j < extras.len() && #[trigger] extras[j] == spec_extend_unique(s, extras)[k]
                && !spec_contains_endpoint(extras.subrange(0, j), extras[j])
                && !spec_contains_endpoint(s, extras[j]),
    decreases extras.len(),
{
    let init = extras.drop_last();
    let prev = spec_extend_unique(s, init);
    let r = spec_extend_unique(s, extras);
    lemma_extend_unique_keeps_prefix(s, init);
    if k < prev.len() {
        lemma_extend_unique_first_seen(s, init, k);
        let j = choose|j: int|
            0 <= j < init.len() && #[trigger] init[j] == prev[k] && !spec_contains_endpoint(
                init.subrange(0, j),
                init[j],
            ) && !spec_contains_endpoint(s, init[j]);
        assert(r[k] == prev[k]);
        assert(extras[j] == init[j]);
        assert(extras.subrange(0, j) =~= init.subrange(0, j));
    } else {
        let e = extras.last();
        let j = extras.len() - 1;
        assert(!spec_contains_endpoint(prev, e));
        assert(r[k] == e);
        assert(extras.subrange(0, j) =~= init);
        lemma_extend_unique_covers(s, init, e);
        if spec_contains_endpoint(s, e) {
            let i = choose|i: int| 0 <= i < s.len() && spec_same_endpoint(#[trigger] s[i], e);
            assert(prev[i] == s[i]) by {
                assert(prev.subrange(0, s.len() as int)[i] == s[i]);
            }
        }
        assert(extras[j] == r[k]);
    }
}

/// Deduplicating endpoints keeps, in order, the first of each group of same
/// endpoints (area included) and nothing else: no two results are the same
/// endpoint, and every input endpoint is represented.
pub proof fn lemma_dedup_endpoints(endpoints: Seq<Endpoint>)
    ensures
        spec_no_duplicate_endpoints(spec_extend_unique(Seq::empty(), endpoints)),
        forall|e: Endpoint| spec_contains_endpoint(endpoints, e) ==> #[trigger] spec_contains_endpoint(
            spec_extend_unique(Seq::empty(), endpoints),
            e,
        ),
        forall|k: int|
            #![trigger spec_extend_unique(Seq::<Endpoint>::empty(), endpoints)[k]]
            0 <= k < spec_extend_unique(Seq::empty(), endpoints).len() ==> exists|j: int|
                #![trigger endpoints[j]]
                0 <= j < endpoints.len() && endpoints[j] == spec_extend_unique(Seq::empty(), endpoints)[k]
                    && !spec_contains_endpoint(endpoints.subrange(0, j), endpoints[j]),
{
    lemma_extend_unique_no_duplicates(Seq::empty(), endpoints);
    assert forall|e: Endpoint| spec_contains_endpoint(endpoints, e) implies #[trigger] spec_contains_endpoint(
        spec_extend_unique(Seq::empty(), endpoints),
        e,
    ) by {
        lemma_extend_unique_covers(Seq::empty(), endpoints, e);
    }
    assert forall|k: int|
        #![trigger spec_extend_unique(Seq::<Endpoint>::empty(), endpoints)[k]]
        0 <= k < spec_extend_unique(Seq::empty(), endpoints).len() implies exists|j: int|
        #![trigger endpoints[j]]
        0 <= j < endpoints.len() && endpoints[j] == spec_extend_unique(Seq::empty(), endpoints)[k]
            && !spec_contains_endpoint(endpoints.subrange(0, j), endpoints[j]) by {
        lemma_extend_unique_first_seen(Seq::empty(), endpoints, k);
    }
}

} // verus!

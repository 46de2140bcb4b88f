use vstd::prelude::*;

verus! {

/// Transport protocol of an endpoint.
#[derive(Clone, Copy, Debug, PartialEq, Eq, Structural)]
pub enum Protocol {
    Unk,
    Tcp,
    Udp,
    Quic,
}

/// Where an endpoint is reachable from, as far as the SN knows.
#[derive(Clone, Copy, Debug, PartialEq, Eq, Structural)]
pub enum EndpointArea {
    Lan,
    Wan,
    Mapped,
    ServerReflexive,
}

/// An IP address: IPv4 as a big-endian `u32`, IPv6 as a big-endian `u128`.
#[derive(Clone, Copy, Debug, PartialEq, Eq, Structural)]
pub enum IpAddr {
    V4(u32),
    V6(u128),
}

#[derive(Clone, Copy, Debug, PartialEq, Eq, Structural)]
pub struct SocketAddr {
    pub ip: IpAddr,
    pub port: u16,
}

impl SocketAddr {
    pub fn new(ip: IpAddr, port: u16) -> (r: SocketAddr)
        ensures
            r.ip == ip,
            r.port == port,
    {
        SocketAddr { ip, port }
    }

    /// IPv4 socket address `a.b.c.d:port`.
    pub fn v4(a: u8, b: u8, c: u8, d: u8, port: u16) -> (r: SocketAddr)
        ensures
            r.ip == IpAddr::V4((a * 16777216 + b * 65536 + c * 256 + d) as u32),
            r.port == port,
    {
        let ip: u32 = a as u32 * 16777216 + b as u32 * 65536 + c as u32 * 256 + d as u32;
        SocketAddr { ip: IpAddr::V4(ip), port }
    }

    pub fn ip(&self) -> (r: IpAddr)
        ensures
            r == self.ip,
    {
        self.ip
    }

    pub fn port(&self) -> (r: u16)
        ensures
            r == self.port,
    {
        self.port
    }

    pub fn is_ipv6(&self) -> (r: bool)
        ensures
            r == (self.ip is V6),
    {
        match self.ip {
            IpAddr::V4(_) => false,
            IpAddr::V6(_) => true,
        }
    }
}

/// 10.0.0.0/8, 172.16.0.0/12 or 192.168.0.0/16.
pub open spec fn spec_ipv4_is_private(ip: u32) -> bool {
    ip / 16777216 == 10 || ip / 1048576 == 2753 || ip / 65536 == 49320
}

/// The private IPv4 addresses, octet by octet: `a.b.c.d` is private exactly
/// when it is in 10.0.0.0/8 (`a == 10`), 172.16.0.0/12 (`a == 172` and `b`
/// from 16 to 31) or 192.168.0.0/16 (`a == 192` and `b == 168`); it is
/// link-local exactly in 169.254.0.0/16 and loopback exactly in 127.0.0.0/8.
pub proof fn lemma_ipv4_private_by_octets(a: u8, b: u8, c: u8, d: u8)
    ensures
        spec_ipv4_is_private((a * 16777216 + b * 65536 + c * 256 + d) as u32) <==> (a == 10 || (a
            == 172 && 16 <= b <= 31) || (a == 192 && b == 168)),
        spec_ipv4_is_link_local((a * 16777216 + b * 65536 + c * 256 + d) as u32) <==> (a == 169
            && b == 254),
        spec_ipv4_is_loopback((a * 16777216 + b * 65536 + c * 256 + d) as u32) <==> a == 127,
{
    let ip: int = a * 16777216 + b * 65536 + c * 256 + d;
    let low24: int = b * 65536 + c * 256 + d;
    let low16: int = c * 256 + d;
    let low20: int = (b % 16) * 65536 + c * 256 + d;
    assert(0 <= ip < 0x1_0000_0000);
    assert(((a * 16777216 + b * 65536 + c * 256 + d) as u32) as int == ip);
    vstd::arithmetic::div_mod::lemma_fundamental_div_mod_converse(ip, 16777216, a as int, low24);
    vstd::arithmetic::div_mod::lemma_fundamental_div_mod_converse(ip, 65536, (a * 256 + b) as int, low16);
    vstd::arithmetic::div_mod::lemma_fundamental_div_mod_converse(b as int, 16, (b / 16) as int, (b % 16) as int);
    assert(ip == (a * 16 + b / 16) * 1048576 + low20) by (nonlinear_arith)
        requires
            ip == a * 16777216 + b * 65536 + c * 256 + d,
            b == (b / 16) * 16 + b % 16,
            low20 == (b % 16) * 65536 + c * 256 + d,
    ;
    vstd::arithmetic::div_mod::lemma_fundamental_div_mod_converse(ip, 1048576, (a * 16 + b / 16) as int, low20);
}

/// 169.254.0.0/16.
pub open spec fn spec_ipv4_is_link_local(ip: u32) -> bool {
    ip / 65536 == 43518
}

/// 127.0.0.0/8.
pub open spec fn spec_ipv4_is_loopback(ip: u32) -> bool {
    ip / 16777216 == 127
}

/// 224.0.0.0/4.
pub open spec fn spec_ipv4_is_multicast(ip: u32) -> bool {
    ip / 268435456 == 14
}

/// fc00::/7.
pub open spec fn spec_ipv6_is_unique_local(ip: u128) -> bool {
    ip / 0x2000000000000000000000000000000 == 0x7e
}

/// fe80::/10.
pub open spec fn spec_ipv6_is_unicast_link_local(ip: u128) -> bool {
    ip / 0x400000000000000000000000000000 == 0x3fa
}

/// A loopback address: 127.0.0.0/8 or `::1`.
pub open spec fn spec_is_loopback(addr: SocketAddr) -> bool {
    match addr.ip {
        IpAddr::V4(ip) => spec_ipv4_is_loopback(ip),
        IpAddr::V6(ip) => ip == 1,
    }
}

/// Both endpoints are IPv4, or both are IPv6.
pub open spec fn spec_same_ip_version(a: Endpoint, b: Endpoint) -> bool {
    (a.addr.ip is V4) == (b.addr.ip is V4)
}

/// An address that belongs to a local network (private or link-local).
pub open spec fn spec_is_lan_addr(addr: SocketAddr) -> bool {
    match addr.ip {
        IpAddr::V4(ip) => spec_ipv4_is_private(ip) || spec_ipv4_is_link_local(ip),
        IpAddr::V6(ip) => spec_ipv6_is_unique_local(ip) || spec_ipv6_is_unicast_link_local(ip),
    }
}

/// A public IPv4 address: neither private, link-local, loopback, unspecified,
/// multicast nor broadcast.
pub open spec fn spec_is_non_lan_ipv4_addr(addr: SocketAddr) -> bool {
    match addr.ip {
        IpAddr::V4(ip) => !spec_ipv4_is_private(ip) && !spec_ipv4_is_link_local(ip)
            && !spec_ipv4_is_loopback(ip) && ip != 0 && !spec_ipv4_is_multicast(ip) && ip
            != 0xffff_ffffu32,
        IpAddr::V6(_) => false,
    }
}

pub fn ipv4_is_private(ip: u32) -> (r: bool)
    ensures
        r == spec_ipv4_is_private(ip),
{
    ip / 16777216 == 10 || ip / 1048576 == 2753 || ip / 65536 == 49320
}

pub fn ipv4_is_link_local(ip: u32) -> (r: bool)
    ensures
        r == spec_ipv4_is_link_local(ip),
{
    ip / 65536 == 43518
}

pub fn ipv4_is_unspecified(ip: u32) -> (r: bool)
    ensures
        r == (ip == 0),
{
    ip == 0
}

pub fn ipv4_is_multicast(ip: u32) -> (r: bool)
    ensures
        r == spec_ipv4_is_multicast(ip),
{
    ip / 268435456 == 14
}

pub fn ipv4_is_broadcast(ip: u32) -> (r: bool)
    ensures
        r == (ip == 0xffff_ffffu32),
{
    ip == 0xffff_ffffu32
}

pub fn is_lan_addr(addr: &SocketAddr) -> (r: bool)
    ensures
        r == spec_is_lan_addr(*addr),
{
    match addr.ip {
        IpAddr::V4(ip) => ipv4_is_private(ip) || ipv4_is_link_local(ip),
        IpAddr::V6(ip) => ip / 0x2000000000000000000000000000000 == 0x7e || ip
            / 0x400000000000000000000000000000 == 0x3fa,
    }
}

pub fn is_non_lan_ipv4_addr(addr: &SocketAddr) -> (r: bool)
    ensures
        r == spec_is_non_lan_ipv4_addr(*addr),
{
    match addr.ip {
        IpAddr::V4(ip) => !ipv4_is_private(ip) && !ipv4_is_link_local(ip) && ip / 16777216
            != 127 && ip != 0 && !ipv4_is_multicast(ip) && ip != 0xffff_ffffu32,
        IpAddr::V6(_) => false,
    }
}

/// A transport endpoint: protocol, socket address, and the area it was
/// classified into. Two endpoints are the same endpoint when protocol and
/// address agree; the area is a classification, not part of identity.
#[derive(Clone, Copy, Debug)]
pub struct Endpoint {
    pub protocol: Protocol,
    pub addr: SocketAddr,
    pub area: EndpointArea,
}

pub open spec fn spec_same_endpoint(a: Endpoint, b: Endpoint) -> bool {
    a.protocol == b.protocol && a.addr == b.addr
}

impl PartialEq for Endpoint {
    fn eq(&self, other: &Endpoint) -> (r: bool) {
        self.protocol == other.protocol && self.addr == other.addr
    }
}

impl vstd::std_specs::cmp::PartialEqSpecImpl for Endpoint {
    open spec fn obeys_eq_spec() -> bool {
        true
    }

    open spec fn eq_spec(&self, other: &Endpoint) -> bool {
        spec_same_endpoint(*self, *other)
    }
}

/// Static-WAN endpoints: WAN or port-mapped.
pub open spec fn spec_is_static_wan(ep: Endpoint) -> bool {
    ep.area == EndpointArea::Wan || ep.area == EndpointArea::Mapped
}

/// Areas from which an endpoint may take part in a punch rendezvous.
pub open spec fn spec_rendezvous_eligible_area(ep: Endpoint) -> bool {
    ep.area == EndpointArea::Wan || ep.area == EndpointArea::Mapped || ep.area
        == EndpointArea::ServerReflexive
}

/// Areas to which a reverse connection may be attempted.
pub open spec fn spec_rendezvous_reverse_connect_eligible_area(ep: Endpoint) -> bool {
    ep.area == EndpointArea::Wan || ep.area == EndpointArea::Mapped
}

impl Endpoint {
    /// An endpoint on `addr` over `protocol`, classified as LAN.
    pub fn new(protocol: Protocol, addr: SocketAddr) -> (r: Endpoint)
        ensures
            r.protocol == protocol,
            r.addr == addr,
            r.area == EndpointArea::Lan,
    {
        Endpoint { protocol, addr, area: EndpointArea::Lan }
    }

    pub fn protocol(&self) -> (r: Protocol)
        ensures
            r == self.protocol,
    {
        self.protocol
    }

    pub fn addr(&self) -> (r: SocketAddr)
        ensures
            r == self.addr,
    {
        self.addr
    }

    pub fn get_area(&self) -> (r: EndpointArea)
        ensures
            r == self.area,
    {
        self.area
    }

    pub fn set_area(&mut self, area: EndpointArea)
        ensures
            final(self).protocol == old(self).protocol,
            final(self).addr == old(self).addr,
            final(self).area == area,
    {
        self.area = area;
    }

    pub fn is_static_wan(&self) -> (r: bool)
        ensures
            r == spec_is_static_wan(*self),
    {
        match self.area {
            EndpointArea::Wan | EndpointArea::Mapped => true,
            _ => false,
        }
    }

    /// Whether this endpoint and `other` are of the same IP version.
    pub fn is_same_ip_version(&self, other: &Endpoint) -> (r: bool)
        ensures
            r == spec_same_ip_version(*self, *other),
    {
        match (self.addr.ip, other.addr.ip) {
            (IpAddr::V4(_), IpAddr::V4(_)) => true,
            (IpAddr::V6(_), IpAddr::V6(_)) => true,
            _ => false,
        }
    }

    /// Whether this endpoint is on a loopback address.
    pub fn is_loopback(&self) -> (r: bool)
        ensures
            r == spec_is_loopback(self.addr),
    {
        match self.addr.ip {
            IpAddr::V4(ip) => ip / 16777216 == 127,
            IpAddr::V6(ip) => ip == 1,
        }
    }

    /// Whether this endpoint is the same endpoint as `other` (protocol and address).
    pub fn same_as(&self, other: &Endpoint) -> (r: bool)
        ensures
            r == spec_same_endpoint(*self, *other),
    {
        self.protocol == other.protocol && self.addr == other.addr
    }
}

pub fn rendezvous_eligible_area(ep: &Endpoint) -> (r: bool)
    ensures
        r == spec_rendezvous_eligible_area(*ep),
{
    match ep.area {
        EndpointArea::Wan | EndpointArea::Mapped | EndpointArea::ServerReflexive => true,
        EndpointArea::Lan => false,
    }
}

pub fn rendezvous_reverse_connect_eligible_area(ep: &Endpoint) -> (r: bool)
    ensures
        r == spec_rendezvous_reverse_connect_eligible_area(*ep),
{
    match ep.area {
        EndpointArea::Wan | EndpointArea::Mapped => true,
        _ => false,
    }
}

} // verus!

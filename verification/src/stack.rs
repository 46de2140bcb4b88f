use vstd::prelude::*;
use std::time::Duration;
use crate::endpoint::Endpoint;
use crate::sockets::quic::QuicCongestionAlgorithm;

verus! {

/// Listener of tunnel manager events; it carries no state.
pub struct TunnelManagerEventListener {}

impl TunnelManagerEventListener {
    pub fn new() -> (r: TunnelManagerEventListener) {
        TunnelManagerEventListener {}
    }
}

/// The `Duration` of `secs` whole seconds.
pub uninterp spec fn spec_duration_from_secs(secs: u64) -> Duration;

/// Calls `std::time::Duration::from_secs`, a duration of `secs` seconds; the
/// result is named, not computed here.
#[verifier::external_body]
fn duration_from_secs(secs: u64) -> (r: Duration)
    ensures
        r == spec_duration_from_secs(secs),
{
    Duration::from_secs(secs)
}

/// How a stack listens and connects: the endpoints it listens on, the ports
/// its router maps to them, and its timeouts.
pub struct P2pConfig {
    endpoints: Vec<Endpoint>,
    port_mapping: Option<Vec<(Endpoint, u16)>>,
    tcp_accept_timout: Duration,
    tcp_connect_timout: Duration,
    quic_connect_timeout: Duration,
    quic_idle_time: Duration,
    quic_congestion_algorithm: QuicCongestionAlgorithm,
}

pub struct P2pConfigView {
    pub endpoints: Seq<Endpoint>,
    pub port_mapping: Option<Seq<(Endpoint, u16)>>,
    pub tcp_accept_timout: Duration,
    pub tcp_connect_timout: Duration,
    pub quic_connect_timeout: Duration,
    pub quic_idle_time: Duration,
    pub quic_congestion_algorithm: QuicCongestionAlgorithm,
}

impl View for P2pConfig {
    type V = P2pConfigView;

    closed spec fn view(&self) -> P2pConfigView {
        P2pConfigView {
            endpoints: self.endpoints@,
            port_mapping: match self.port_mapping {
                Some(v) => Some(v@),
                None => None,
            },
            tcp_accept_timout: self.tcp_accept_timout,
            tcp_connect_timout: self.tcp_connect_timout,
            quic_connect_timeout: self.quic_connect_timeout,
            quic_idle_time: self.quic_idle_time,
            quic_congestion_algorithm: self.quic_congestion_algorithm,
        }
    }
}

impl P2pConfig {
    /// A configuration listening on `endpoints`, with no port mapping, ten
    /// seconds for TCP accepts and connects and QUIC connects, a minute of
    /// QUIC idle time, and BBR congestion control.
    pub fn new(endpoints: Vec<Endpoint>) -> (r: P2pConfig)
        ensures
            r@ == (P2pConfigView {
                endpoints: endpoints@,
                port_mapping: None,
                tcp_accept_timout: spec_duration_from_secs(10),
                tcp_connect_timout: spec_duration_from_secs(10),
                quic_connect_timeout: spec_duration_from_secs(10),
                quic_idle_time: spec_duration_from_secs(60),
                quic_congestion_algorithm: QuicCongestionAlgorithm::Bbr,
            }),
    {
        P2pConfig {
            endpoints,
            port_mapping: None,
            tcp_accept_timout: duration_from_secs(10),
            tcp_connect_timout: duration_from_secs(10),
            quic_connect_timeout: duration_from_secs(10),
            quic_idle_time: duration_from_secs(60),
            quic_congestion_algorithm: QuicCongestionAlgorithm::Bbr,
        }
    }

    pub fn endpoints(&self) -> (r: &[Endpoint])
        ensures
            r@ == self@.endpoints,
    {
        self.endpoints.as_slice()
    }

    pub fn add_endpoint(self, endpoint: Endpoint) -> (r: P2pConfig)
        ensures
            r@ == (P2pConfigView { endpoints: self@.endpoints.push(endpoint), ..self@ }),
    {
        let mut c = self;
        c.endpoints.push(endpoint);
        c
    }

    pub fn port_mapping(&self) -> (r: &Option<Vec<(Endpoint, u16)>>)
        ensures
            r is None <==> self@.port_mapping is None,
            r matches Some(v) ==> self@.port_mapping == Some(v@),
    {
        &self.port_mapping
    }

    /// Adds a mapped port to the list. Where there was no list yet, an empty
    /// one is started and `port_mapping` itself is not kept.
    pub fn add_port_mapping(self, port_mapping: (Endpoint, u16)) -> (r: P2pConfig)
        ensures
            r@ == (P2pConfigView {
                port_mapping: match self@.port_mapping {
                    None => Some(Seq::empty()),
                    Some(s) => Some(s.push(port_mapping)),
                },
                ..self@
            }),
    {
        let mut c = self;
        match c.port_mapping {
            None => {
                c.port_mapping = Some(Vec::new());
            },
            Some(mut list) => {
                list.push(port_mapping);
                c.port_mapping = Some(list);
            },
        }
        c
    }

    /// Appends mapped ports to the list, which starts as `port_mapping` where
    /// there was none.
    pub fn add_port_mapping_list(self, port_mapping: Vec<(Endpoint, u16)>) -> (r: P2pConfig)
        ensures
            r@ == (P2pConfigView {
                port_mapping: match self@.port_mapping {
                    None => Some(port_mapping@),
                    Some(s) => Some(s + port_mapping@),
                },
                ..self@
            }),
    {
        let mut c = self;
        match c.port_mapping {
            None => {
                c.port_mapping = Some(port_mapping);
            },
            Some(mut list) => {
                let mut more = port_mapping;
                list.append(&mut more);
                c.port_mapping = Some(list);
            },
        }
        c
    }

    pub fn tcp_accept_timout(&self) -> (r: Duration)
        ensures
            r == self@.tcp_accept_timout,
    {
        self.tcp_accept_timout
    }

    pub fn set_tcp_accept_timout(self, tcp_accept_timout: Duration) -> (r: P2pConfig)
        ensures
            r@ == (P2pConfigView { tcp_accept_timout, ..self@ }),
    {
        let mut c = self;
        c.tcp_accept_timout = tcp_accept_timout;
        c
    }

    pub fn tcp_connect_timout(&self) -> (r: Duration)
        ensures
            r == self@.tcp_connect_timout,
    {
        self.tcp_connect_timout
    }

    pub fn set_tcp_connect_timout(self, tcp_connect_timout: Duration) -> (r: P2pConfig)
        ensures
            r@ == (P2pConfigView { tcp_connect_timout, ..self@ }),
    {
        let mut c = self;
        c.tcp_connect_timout = tcp_connect_timout;
        c
    }

    pub fn quic_connect_timeout(&self) -> (r: Duration)
        ensures
            r == self@.quic_connect_timeout,
    {
        self.quic_connect_timeout
    }

    pub fn set_quic_connect_timeout(self, quic_connect_timeout: Duration) -> (r: P2pConfig)
        ensures
            r@ == (P2pConfigView { quic_connect_timeout, ..self@ }),
    {
        let mut c = self;
        c.quic_connect_timeout = quic_connect_timeout;
        c
    }

    pub fn quic_idle_time(&self) -> (r: Duration)
        ensures
            r == self@.quic_idle_time,
    {
        self.quic_idle_time
    }

    pub fn set_quic_idle_time(self, quic_idle_time: Duration) -> (r: P2pConfig)
        ensures
            r@ == (P2pConfigView { quic_idle_time, ..self@ }),
    {
        let mut c = self;
        c.quic_idle_time = quic_idle_time;
        c
    }

    pub fn quic_congestion_algorithm(&self) -> (r: QuicCongestionAlgorithm)
        ensures
            r == self@.quic_congestion_algorithm,
    {
        self.quic_congestion_algorithm
    }

    pub fn set_quic_congestion_algorithm(self, quic_congestion_algorithm: QuicCongestionAlgorithm) -> (r: P2pConfig)
        ensures
            r@ == (P2pConfigView { quic_congestion_algorithm, ..self@ }),
    {
        let mut c = self;
        c.quic_congestion_algorithm = quic_congestion_algorithm;
        c
    }
}

} // verus!

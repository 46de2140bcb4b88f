use vstd::prelude::*;
use vstd::relations::sorted_by;
use crate::endpoint::{Endpoint, Protocol};
use crate::nat_type::{NatMappingObservation, NatProfile};
use crate::sn::protocol::sn::{
    NAT_PROBE_CONTROL_VERSION, NatProbeDirective, NatProbeDirectiveView, NatProbeResult,
    NatProbeResultView, spec_supported_nat_probe_ports, supported_nat_probe_ports,
};
use crate::sn::service::peer_table::PeerTable;
use crate::types::{CmdTunnelId, P2pId, Timestamp};

verus! {

/// How often a peer's NAT is probed again, in microseconds (two hours).
pub const NAT_PROBE_PERIOD: Timestamp = 7_200_000_000;

/// How long a peer has to answer a directive, in microseconds.
pub const NAT_PROBE_DIRECTIVE_TIMEOUT: Timestamp = 30_000_000;

/// How long to wait after a failed probe, in microseconds.
pub const NAT_PROBE_FAILURE_BACKOFF: Timestamp = 60_000_000;

/// Most directives in flight at once, over all peers.
pub const MAX_CONCURRENT_NAT_PROBES: usize = 256;

/// A duration in microseconds as a timestamp offset, saturating at the
/// largest timestamp.
pub fn duration_to_bucky_time(micros: u128) -> (r: Timestamp)
    ensures
        r == (if micros > u64::MAX { u64::MAX as int } else { micros as int }),
{
    if micros > u64::MAX as u128 {
        u64::MAX
    } else {
        micros as u64
    }
}

#[derive(Clone, Copy, Debug, PartialEq, Eq, Structural)]
pub enum NatProbeTriggerReason {
    Online,
    ExternalAddress,
    Config,
    Demand,
    Periodic,
}

impl NatProbeTriggerReason {
    pub fn as_str(self) -> (r: &'static str)
        ensures
            r@ == (match self {
                NatProbeTriggerReason::Online => "online"@,
                NatProbeTriggerReason::ExternalAddress => "external_address"@,
                NatProbeTriggerReason::Config => "config"@,
                NatProbeTriggerReason::Demand => "demand"@,
                NatProbeTriggerReason::Periodic => "periodic"@,
            }),
    {
        match self {
            NatProbeTriggerReason::Online => "online",
            NatProbeTriggerReason::ExternalAddress => "external_address",
            NatProbeTriggerReason::Config => "config",
            NatProbeTriggerReason::Demand => "demand",
            NatProbeTriggerReason::Periodic => "periodic",
        }
    }
}

#[derive(Clone, Copy, Debug, PartialEq, Eq, Structural)]
pub enum NatProbeAuthorityRemovalReason {
    TunnelMissing,
    PeerDisconnected,
}

impl NatProbeAuthorityRemovalReason {
    pub fn as_str(self) -> (r: &'static str)
        ensures
            r@ == (match self {
                NatProbeAuthorityRemovalReason::TunnelMissing => "tunnel_missing"@,
                NatProbeAuthorityRemovalReason::PeerDisconnected => "peer_disconnected"@,
            }),
    {
        match self {
            NatProbeAuthorityRemovalReason::TunnelMissing => "tunnel_missing",
            NatProbeAuthorityRemovalReason::PeerDisconnected => "peer_disconnected",
        }
    }
}

/// Why a NAT-probe result was not accepted.
#[derive(Clone, Copy, Debug, PartialEq, Eq, Structural)]
pub enum NatProbeResultRejectReason {
    MissingAuthority,
    CapabilityUnsupported,
    VersionUnsupported,
    ProfileStale,
    SnMismatch,
    PeerMismatch,
    RegistrationGenerationMismatch,
    ConfigGenerationMismatch,
    MissingInFlight,
    RequestMismatch,
    DeadlineExpired,
}

impl NatProbeResultRejectReason {
    pub fn as_str(self) -> (r: &'static str)
        ensures
            r@ == (match self {
                NatProbeResultRejectReason::MissingAuthority => "missing_authority"@,
                NatProbeResultRejectReason::CapabilityUnsupported => "capability_unsupported"@,
                NatProbeResultRejectReason::VersionUnsupported => "version_unsupported"@,
                NatProbeResultRejectReason::ProfileStale => "profile_stale"@,
                NatProbeResultRejectReason::SnMismatch => "sn_mismatch"@,
                NatProbeResultRejectReason::PeerMismatch => "peer_mismatch"@,
                NatProbeResultRejectReason::RegistrationGenerationMismatch => "registration_generation_mismatch"@,
                NatProbeResultRejectReason::ConfigGenerationMismatch => "config_generation_mismatch"@,
                NatProbeResultRejectReason::MissingInFlight => "missing_in_flight"@,
                NatProbeResultRejectReason::RequestMismatch => "request_mismatch"@,
                NatProbeResultRejectReason::DeadlineExpired => "deadline_expired"@,
            }),
    {
        match self {
            NatProbeResultRejectReason::MissingAuthority => "missing_authority",
            NatProbeResultRejectReason::CapabilityUnsupported => "capability_unsupported",
            NatProbeResultRejectReason::VersionUnsupported => "version_unsupported",
            NatProbeResultRejectReason::ProfileStale => "profile_stale",
            NatProbeResultRejectReason::SnMismatch => "sn_mismatch",
            NatProbeResultRejectReason::PeerMismatch => "peer_mismatch",
            NatProbeResultRejectReason::RegistrationGenerationMismatch => "registration_generation_mismatch",
            NatProbeResultRejectReason::ConfigGenerationMismatch => "config_generation_mismatch",
            NatProbeResultRejectReason::MissingInFlight => "missing_in_flight",
            NatProbeResultRejectReason::RequestMismatch => "request_mismatch",
            NatProbeResultRejectReason::DeadlineExpired => "deadline_expired",
        }
    }
}

/// A directive that was sent and not yet answered.
#[derive(Clone, Copy, Debug, PartialEq, Eq, Structural)]
pub struct InFlightProbe {
    pub request_id: u64,
    pub expires_at: Timestamp,
}

/// What the SN remembers of one peer's NAT probing.
#[derive(Clone, Copy, Debug)]
pub struct PeerProbeState {
    pub authority_tunnel_id: CmdTunnelId,
    pub remote_endpoint: Endpoint,
    pub registration_generation: u64,
    pub config_generation: u64,
    pub in_flight: Option<InFlightProbe>,
    pub retry_after: Timestamp,
    pub next_periodic_at: Timestamp,
    pub pending_trigger: Option<NatProbeTriggerReason>,
    pub pending_demand: bool,
    pub profile: Option<NatProfile>,
    pub control_supported: bool,
}

pub struct ProbeTransitionView {
    pub directive: Option<NatProbeDirectiveView>,
    pub profile_update: Option<Option<NatProfile>>,
}

/// What one observation asks the service to do: send a directive, and/or
/// replace (`Some(Some(_))`) or withdraw (`Some(None)`) the published profile.
#[derive(Debug)]
pub struct ProbeTransition {
    pub directive: Option<NatProbeDirective>,
    pub profile_update: Option<Option<NatProfile>>,
}

impl View for ProbeTransition {
    type V = ProbeTransitionView;

    open spec fn view(&self) -> ProbeTransitionView {
        ProbeTransitionView {
            directive: match self.directive {
                Some(d) => Some(d@),
                None => None,
            },
            profile_update: self.profile_update,
        }
    }
}

pub open spec fn spec_no_transition() -> ProbeTransitionView {
    ProbeTransitionView { directive: None, profile_update: None }
}

pub struct NatProbeSchedulerView {
    pub sn_peer_id: Seq<u8>,
    pub ports: Seq<u16>,
    pub config_generation: u64,
    pub next_registration_generation: u64,
    pub next_request_id: u64,
    pub peers: Map<Seq<u8>, PeerProbeState>,
}

/// The next generation or request identifier: one more, wrapping to 1 (never 0).
pub open spec fn spec_next_generation(g: u64) -> u64 {
    if g == u64::MAX {
        1
    } else {
        (g + 1) as u64
    }
}

pub open spec fn spec_saturating_add(a: u64, b: u64) -> u64 {
    if a + b > u64::MAX {
        u64::MAX
    } else {
        (a + b) as u64
    }
}

fn next_generation(g: u64) -> (r: u64)
    ensures
        r == spec_next_generation(g),
{
    if g == u64::MAX {
        1
    } else {
        g + 1
    }
}

fn saturating_add(a: u64, b: u64) -> (r: u64)
    ensures
        r == spec_saturating_add(a, b),
{
    if a > u64::MAX - b {
        u64::MAX
    } else {
        a + b
    }
}

/// The ascending order on ports.
pub open spec fn spec_ascending() -> spec_fn(u16, u16) -> bool {
    |a: u16, b: u16| a <= b
}

/// Invariant of the scheduler.
pub open spec fn spec_scheduler_inv(v: NatProbeSchedulerView) -> bool {
    &&& v.config_generation >= 1
    &&& v.next_registration_generation >= 1
    &&& v.next_request_id >= 1
    &&& v.ports.len() == 0 || (spec_supported_nat_probe_ports(v.ports) && sorted_by(v.ports, spec_ascending()))
    &&& forall|k: Seq<u8>| #[trigger] v.peers.dom().contains(k) ==> {
        let st = v.peers[k];
        &&& st.config_generation == v.config_generation
        &&& st.registration_generation >= 1
        &&& (st.in_flight matches Some(p) ==> {
            &&& p.request_id >= 1
            &&& st.pending_trigger is None
            &&& st.control_supported
            &&& v.ports.len() > 0
        })
    }
}

pub open spec fn spec_in_flight_pred(peers: Map<Seq<u8>, PeerProbeState>) -> spec_fn(Seq<u8>) -> bool {
    |k: Seq<u8>| peers[k].in_flight is Some
}

/// Number of peers with a directive in flight.
pub open spec fn spec_in_flight_count(peers: Map<Seq<u8>, PeerProbeState>) -> nat {
    peers.dom().filter(spec_in_flight_pred(peers)).len()
}

pub open spec fn spec_register(
    v: NatProbeSchedulerView,
    id: Seq<u8>,
    tunnel_id: CmdTunnelId,
    remote: Endpoint,
    control_supported: bool,
    now: Timestamp,
) -> NatProbeSchedulerView {
    let trigger = if v.peers.dom().contains(id) {
        NatProbeTriggerReason::ExternalAddress
    } else {
        NatProbeTriggerReason::Online
    };
    NatProbeSchedulerView {
        next_registration_generation: spec_next_generation(v.next_registration_generation),
        peers: v.peers.insert(
            id,
            PeerProbeState {
                authority_tunnel_id: tunnel_id,
                remote_endpoint: remote,
                registration_generation: v.next_registration_generation,
                config_generation: v.config_generation,
                in_flight: None,
                retry_after: 0,
                next_periodic_at: now,
                pending_trigger: Some(trigger),
                pending_demand: false,
                profile: None,
                control_supported,
            },
        ),
        ..v
    }
}

/// A peer's state after its in-flight directive is checked against the
/// deadline, and whether an expiry withdrew its profile.
pub open spec fn spec_finish_state(st: PeerProbeState, now: Timestamp) -> (PeerProbeState, bool) {
    if st.in_flight matches Some(p) && now > p.expires_at {
        (
            PeerProbeState {
                in_flight: None,
                profile: None,
                pending_trigger: None,
                retry_after: spec_saturating_add(now, NAT_PROBE_FAILURE_BACKOFF),
                next_periodic_at: spec_saturating_add(now, NAT_PROBE_PERIOD),
                ..st
            },
            true,
        )
    } else {
        (st, false)
    }
}

pub open spec fn spec_finish_expired(v: NatProbeSchedulerView, id: Seq<u8>, now: Timestamp) -> (
    NatProbeSchedulerView,
    bool,
) {
    if v.peers.dom().contains(id) {
        let (st, changed) = spec_finish_state(v.peers[id], now);
        if changed {
            (NatProbeSchedulerView { peers: v.peers.insert(id, st), ..v }, true)
        } else {
            (v, false)
        }
    } else {
        (v, false)
    }
}

/// Why the result reported by `id` is not accepted, if it is not.
pub open spec fn spec_reject_reason(
    v: NatProbeSchedulerView,
    id: Seq<u8>,
    result: NatProbeResultView,
    now: Timestamp,
) -> Option<NatProbeResultRejectReason> {
    if !v.peers.dom().contains(id) {
        Some(NatProbeResultRejectReason::MissingAuthority)
    } else {
        let st = v.peers[id];
        let profile_valid = result.profile.observation == NatMappingObservation::Unknown
            || result.profile.spec_is_fresh(now);
        if !st.control_supported {
            Some(NatProbeResultRejectReason::CapabilityUnsupported)
        } else if !(result.version == NAT_PROBE_CONTROL_VERSION && result.profile.spec_is_supported()) {
            Some(NatProbeResultRejectReason::VersionUnsupported)
        } else if !profile_valid {
            Some(NatProbeResultRejectReason::ProfileStale)
        } else if result.sn_peer_id != v.sn_peer_id {
            Some(NatProbeResultRejectReason::SnMismatch)
        } else if result.peer_id != id {
            Some(NatProbeResultRejectReason::PeerMismatch)
        } else if result.registration_generation != st.registration_generation {
            Some(NatProbeResultRejectReason::RegistrationGenerationMismatch)
        } else if result.probe_config_generation != st.config_generation {
            Some(NatProbeResultRejectReason::ConfigGenerationMismatch)
        } else if st.in_flight is None {
            Some(NatProbeResultRejectReason::MissingInFlight)
        } else if st.in_flight.unwrap().request_id != result.request_id {
            Some(NatProbeResultRejectReason::RequestMismatch)
        } else if now > st.in_flight.unwrap().expires_at {
            Some(NatProbeResultRejectReason::DeadlineExpired)
        } else {
            None
        }
    }
}

/// State after a result is offered, and the profile update it causes.
pub open spec fn spec_accept_result(
    v: NatProbeSchedulerView,
    id: Seq<u8>,
    result: NatProbeResultView,
    now: Timestamp,
) -> (NatProbeSchedulerView, Option<Option<NatProfile>>) {
    if spec_reject_reason(v, id, result, now) is Some {
        (v, None)
    } else {
        let st = v.peers[id];
        let next_periodic_at = spec_saturating_add(now, NAT_PROBE_PERIOD);
        if result.profile.observation == NatMappingObservation::Unknown {
            let st2 = PeerProbeState {
                in_flight: None,
                pending_trigger: None,
                pending_demand: false,
                next_periodic_at,
                profile: None,
                retry_after: spec_saturating_add(now, NAT_PROBE_FAILURE_BACKOFF),
                ..st
            };
            (NatProbeSchedulerView { peers: v.peers.insert(id, st2), ..v }, Some(None))
        } else {
            let profile = NatProfile { valid_until: next_periodic_at, ..result.profile };
            let st2 = PeerProbeState {
                in_flight: None,
                pending_trigger: None,
                pending_demand: false,
                next_periodic_at,
                profile: Some(profile),
                retry_after: 0,
                ..st
            };
            (NatProbeSchedulerView { peers: v.peers.insert(id, st2), ..v }, Some(Some(profile)))
        }
    }
}

/// The trigger due for a peer's state at `now`, if any.
pub open spec fn spec_due_trigger(st: PeerProbeState, now: Timestamp) -> Option<NatProbeTriggerReason> {
    if st.pending_trigger is Some {
        st.pending_trigger
    } else if st.pending_demand && now >= st.retry_after {
        Some(NatProbeTriggerReason::Demand)
    } else if now >= st.next_periodic_at {
        Some(NatProbeTriggerReason::Periodic)
    } else {
        None
    }
}

/// State after checking whether a directive is due for `id`, and the
/// directive issued, if one is.
pub open spec fn spec_issue_if_due(v: NatProbeSchedulerView, id: Seq<u8>, now: Timestamp) -> (
    NatProbeSchedulerView,
    Option<NatProbeDirectiveView>,
) {
    if !v.peers.dom().contains(id) {
        (v, None)
    } else {
        let st = v.peers[id];
        if spec_due_trigger(st, now) is None {
            (v, None)
        } else if v.ports.len() == 0 || !st.control_supported || st.in_flight is Some
            || spec_in_flight_count(v.peers) >= MAX_CONCURRENT_NAT_PROBES {
            (v, None)
        } else {
            let request_id = v.next_request_id;
            let expires_at = spec_saturating_add(now, NAT_PROBE_DIRECTIVE_TIMEOUT);
            let st2 = PeerProbeState {
                in_flight: Some(InFlightProbe { request_id, expires_at }),
                pending_trigger: None,
                pending_demand: false,
                ..st
            };
            (
                NatProbeSchedulerView {
                    next_request_id: spec_next_generation(v.next_request_id),
                    peers: v.peers.insert(id, st2),
                    ..v
                },
                Some(
                    NatProbeDirectiveView {
                        version: NAT_PROBE_CONTROL_VERSION,
                        sn_peer_id: v.sn_peer_id,
                        peer_id: id,
                        registration_generation: st.registration_generation,
                        request_id,
                        probe_config_generation: st.config_generation,
                        expires_at,
                        ports: v.ports,
                    },
                ),
            )
        }
    }
}

/// A report over a non-QUIC tunnel: the peer loses its registration when that
/// tunnel was the authority.
pub open spec fn spec_observe_ineligible(
    v: NatProbeSchedulerView,
    id: Seq<u8>,
    tunnel_id: CmdTunnelId,
) -> (NatProbeSchedulerView, ProbeTransitionView) {
    if v.peers.dom().contains(id) && v.peers[id].authority_tunnel_id == tunnel_id {
        (
            NatProbeSchedulerView { peers: v.peers.remove(id), ..v },
            ProbeTransitionView { directive: None, profile_update: Some(None) },
        )
    } else {
        (v, spec_no_transition())
    }
}

/// Whether a report over `tunnel_id` from `remote` needs a new registration.
pub open spec fn spec_needs_registration(v: NatProbeSchedulerView, id: Seq<u8>, remote: Endpoint) -> bool {
    !v.peers.dom().contains(id) || v.peers[id].remote_endpoint.addr != remote.addr
}

/// Registration step of a capable report: registers a new or moved peer,
/// otherwise records the peer's control capability.
pub open spec fn spec_report_registration(
    v: NatProbeSchedulerView,
    id: Seq<u8>,
    tunnel_id: CmdTunnelId,
    remote: Endpoint,
    control_version: Option<u8>,
    now: Timestamp,
) -> (NatProbeSchedulerView, Option<Option<NatProfile>>) {
    let control_supported = control_version == Some(NAT_PROBE_CONTROL_VERSION);
    if spec_needs_registration(v, id, remote) {
        (spec_register(v, id, tunnel_id, remote, control_supported, now), Some(None))
    } else {
        let st = v.peers[id];
        if st.control_supported && !control_supported {
            let st2 = PeerProbeState { in_flight: None, profile: None, control_supported, ..st };
            (NatProbeSchedulerView { peers: v.peers.insert(id, st2), ..v }, Some(None))
        } else {
            let st2 = PeerProbeState { control_supported, ..st };
            (NatProbeSchedulerView { peers: v.peers.insert(id, st2), ..v }, None)
        }
    }
}

/// What a report from a peer that can carry probe control does.
pub open spec fn spec_observe_capable_report(
    v: NatProbeSchedulerView,
    id: Seq<u8>,
    tunnel_id: CmdTunnelId,
    remote: Endpoint,
    control_version: Option<u8>,
    result: Option<NatProbeResultView>,
    now: Timestamp,
) -> (NatProbeSchedulerView, ProbeTransitionView) {
    if !(remote.protocol is Quic) {
        spec_observe_ineligible(v, id, tunnel_id)
    } else if v.peers.dom().contains(id) && v.peers[id].authority_tunnel_id != tunnel_id {
        (v, spec_no_transition())
    } else {
        let (v1, pu1) = spec_report_registration(v, id, tunnel_id, remote, control_version, now);
        let (v2, expired) = spec_finish_expired(v1, id, now);
        let pu2 = if expired {
            Some(None)
        } else {
            pu1
        };
        let (v3, pu3) = match result {
            Some(r) => {
                let (v3, u) = spec_accept_result(v2, id, r, now);
                (v3, if u is Some { u } else { pu2 })
            },
            None => (v2, pu2),
        };
        let (v4, directive) = spec_issue_if_due(v3, id, now);
        (v4, ProbeTransitionView { directive, profile_update: pu3 })
    }
}

/// What a control-only observation of a peer does.
pub open spec fn spec_observe_control(
    v: NatProbeSchedulerView,
    id: Seq<u8>,
    tunnel_id: CmdTunnelId,
    remote: Endpoint,
    now: Timestamp,
) -> (NatProbeSchedulerView, ProbeTransitionView) {
    if !(remote.protocol is Quic) {
        spec_observe_ineligible(v, id, tunnel_id)
    } else if v.peers.dom().contains(id) && v.peers[id].authority_tunnel_id != tunnel_id {
        (v, spec_no_transition())
    } else {
        let (v1, pu1) = if spec_needs_registration(v, id, remote) {
            let control_supported = v.peers.dom().contains(id) && v.peers[id].control_supported;
            (spec_register(v, id, tunnel_id, remote, control_supported, now), Some(None))
        } else {
            (v, None)
        };
        let (v2, expired) = spec_finish_expired(v1, id, now);
        (v2, ProbeTransitionView { directive: None, profile_update: if expired { Some(None) } else { pu1 } })
    }
}

/// The ports a configuration takes effect with: sorted when usable, else none.
pub open spec fn spec_effective_ports(ports: Seq<u16>) -> Seq<u16> {
    let sorted = ports.sort_by(spec_ascending());
    if spec_supported_nat_probe_ports(sorted) {
        sorted
    } else {
        Seq::empty()
    }
}

/// A peer's state after a configuration change.
pub open spec fn spec_config_reset(st: PeerProbeState, config_generation: u64) -> PeerProbeState {
    PeerProbeState {
        config_generation,
        in_flight: None,
        pending_trigger: Some(NatProbeTriggerReason::Config),
        profile: None,
        ..st
    }
}

pub open spec fn spec_set_ports(v: NatProbeSchedulerView, ports: Seq<u16>) -> NatProbeSchedulerView {
    let effective = spec_effective_ports(ports);
    if effective == v.ports {
        v
    } else {
        let g = spec_next_generation(v.config_generation);
        NatProbeSchedulerView {
            ports: effective,
            config_generation: g,
            peers: Map::new(
                |k: Seq<u8>| v.peers.dom().contains(k),
                |k: Seq<u8>| spec_config_reset(v.peers[k], g),
            ),
            ..v
        }
    }
}

/// The profile currently published for a peer: present and still fresh.
pub open spec fn spec_current_profile(v: NatProbeSchedulerView, id: Seq<u8>, now: Timestamp) -> Option<
    NatProfile,
> {
    if v.peers.dom().contains(id) && v.peers[id].profile is Some
        && v.peers[id].profile.unwrap().spec_is_fresh(now) {
        v.peers[id].profile
    } else {
        None
    }
}

/// A directive issued to a peer is answered successfully: the result built
/// from it, with a supported profile that is fresh (or unknown) at a time no
/// later than the directive's deadline, is accepted.
pub proof fn lemma_issued_directive_result_accepted(
    v: NatProbeSchedulerView,
    id: Seq<u8>,
    now: Timestamp,
    t: Timestamp,
    profile: NatProfile,
)
    requires
        spec_issue_if_due(v, id, now).1 is Some,
        t <= spec_issue_if_due(v, id, now).1.unwrap().expires_at,
        profile.spec_is_supported(),
        profile.observation == NatMappingObservation::Unknown || profile.spec_is_fresh(t),
    ensures
        ({
            let (v1, d) = spec_issue_if_due(v, id, now);
            let dir = d.unwrap();
            let result = NatProbeResultView {
                version: dir.version,
                sn_peer_id: dir.sn_peer_id,
                peer_id: dir.peer_id,
                registration_generation: dir.registration_generation,
                request_id: dir.request_id,
                probe_config_generation: dir.probe_config_generation,
                profile,
            };
            spec_reject_reason(v1, id, result, t) is None
        }),
{
}

/// A result is accepted at most once: offering the same result again after
/// it was accepted is rejected.
pub proof fn lemma_accepted_result_not_replayed(
    v: NatProbeSchedulerView,
    id: Seq<u8>,
    result: NatProbeResultView,
    now: Timestamp,
    later: Timestamp,
)
    requires
        spec_reject_reason(v, id, result, now) is None,
    ensures
        spec_reject_reason(spec_accept_result(v, id, result, now).0, id, result, later) is Some,
{
}

/// Applying the same port configuration twice changes nothing the second time.
pub proof fn lemma_set_ports_idempotent(v: NatProbeSchedulerView, ports: Seq<u16>)
    ensures
        spec_set_ports(spec_set_ports(v, ports), ports) == spec_set_ports(v, ports),
{
}

/// A result is rejected when it names another SN, another peer, another
/// registration or another probe configuration than the peer's current one,
/// whatever request identifier it carries.
pub proof fn lemma_foreign_result_rejected(
    v: NatProbeSchedulerView,
    id: Seq<u8>,
    result: NatProbeResultView,
    now: Timestamp,
)
    requires
        v.peers.dom().contains(id),
        result.sn_peer_id != v.sn_peer_id || result.peer_id != id || result.registration_generation
            != v.peers[id].registration_generation || result.probe_config_generation
            != v.peers[id].config_generation,
    ensures
        spec_reject_reason(v, id, result, now) is Some,
        spec_accept_result(v, id, result, now) == (v, None::<Option<NatProfile>>),
{
}

/// Once a peer registers again, a snapshot of its earlier registration no
/// longer matches: removal by that snapshot leaves the new registration
/// alone (unless the generation counter wrapped all the way round to it).
pub proof fn lemma_reregistration_outdates_snapshot(
    v: NatProbeSchedulerView,
    id: Seq<u8>,
    tunnel_id: CmdTunnelId,
    remote: Endpoint,
    control_supported: bool,
    now: Timestamp,
)
    requires
        v.peers.dom().contains(id),
        v.next_registration_generation != v.peers[id].registration_generation,
    ensures
        ({
            let v2 = spec_register(v, id, tunnel_id, remote, control_supported, now);
            &&& v2.peers.dom().contains(id)
            &&& v2.peers[id].registration_generation != v.peers[id].registration_generation
        }),
{
}

/// A peer that can be probed (probe control supported, ports configured,
/// nothing in flight for it, no trigger or demand queued, and room for one
/// more probe) is sent a directive by any observation at or after its
/// periodic time: the directive of the current registration and
/// configuration, under the next request identifier, for the configured
/// ports, now in flight until its deadline.
pub proof fn lemma_periodic_probe_issued(v: NatProbeSchedulerView, id: Seq<u8>, now: Timestamp)
    requires
        v.peers.dom().contains(id),
        v.ports.len() > 0,
        v.peers[id].control_supported,
        v.peers[id].in_flight is None,
        v.peers[id].pending_trigger is None,
        !v.peers[id].pending_demand,
        spec_in_flight_count(v.peers) < MAX_CONCURRENT_NAT_PROBES,
        now >= v.peers[id].next_periodic_at,
    ensures
        ({
            let (v2, d) = spec_issue_if_due(v, id, now);
            let deadline = if now + NAT_PROBE_DIRECTIVE_TIMEOUT > u64::MAX {
                u64::MAX
            } else {
                (now + NAT_PROBE_DIRECTIVE_TIMEOUT) as u64
            };
            &&& d == Some(
                NatProbeDirectiveView {
                    version: NAT_PROBE_CONTROL_VERSION,
                    sn_peer_id: v.sn_peer_id,
                    peer_id: id,
                    registration_generation: v.peers[id].registration_generation,
                    request_id: v.next_request_id,
                    probe_config_generation: v.peers[id].config_generation,
                    expires_at: deadline,
                    ports: v.ports,
                },
            )
            &&& v2.peers.dom().contains(id)
            &&& v2.peers[id].in_flight == Some(InFlightProbe { request_id: v.next_request_id, expires_at: deadline })
        }),
{
}

/// A peer that comes online (or moves) over probe control, with ports
/// configured and room for one more probe, is sent a directive at once; and a
/// peer with a demand queued is sent one as soon as its retry time has come.
pub proof fn lemma_online_and_demand_probes_issued(
    v: NatProbeSchedulerView,
    id: Seq<u8>,
    tunnel_id: CmdTunnelId,
    remote: Endpoint,
    now: Timestamp,
)
    requires
        v.ports.len() > 0,
    ensures
        ({
            let v2 = spec_register(v, id, tunnel_id, remote, true, now);
            spec_in_flight_count(v2.peers) < MAX_CONCURRENT_NAT_PROBES ==> spec_issue_if_due(v2, id, now).1 is Some
        }),
        v.peers.dom().contains(id) && v.peers[id].control_supported && v.peers[id].in_flight is None
            && v.peers[id].pending_demand && now >= v.peers[id].retry_after && spec_in_flight_count(
            v.peers,
        ) < MAX_CONCURRENT_NAT_PROBES ==> spec_issue_if_due(v, id, now).1 is Some,
{
}

/// Success is not the end of probing: after a peer's result is accepted at
/// `t`, any observation of the peer at or after `t + NAT_PROBE_PERIOD` (while
/// there is room for one more probe) sends it a new directive, so the
/// profile, valid until then, is refreshed.
pub proof fn lemma_accepted_then_probed_periodically(
    v: NatProbeSchedulerView,
    id: Seq<u8>,
    result: NatProbeResultView,
    t: Timestamp,
    later: Timestamp,
)
    requires
        spec_reject_reason(v, id, result, t) is None,
        v.ports.len() > 0,
        t + NAT_PROBE_PERIOD <= later,
        spec_in_flight_count(spec_accept_result(v, id, result, t).0.peers) < MAX_CONCURRENT_NAT_PROBES,
    ensures
        spec_issue_if_due(spec_accept_result(v, id, result, t).0, id, later).1 is Some,
        spec_issue_if_due(spec_accept_result(v, id, result, t).0, id, later).1.unwrap().request_id
            == v.next_request_id,
{
    let v1 = spec_accept_result(v, id, result, t).0;
    assert(v1.peers[id].next_periodic_at <= later);
    lemma_periodic_probe_issued(v1, id, later);
}

/// Every operation on a scheduler keeps its invariant; in particular request
/// identifiers and generations are never 0, every registered peer runs under
/// the current configuration generation, and a probe is only in flight for a
/// peer that supports probe control, with ports configured and no trigger
/// queued.
pub proof fn lemma_scheduler_inv_facts(v: NatProbeSchedulerView, id: Seq<u8>)
    requires
        spec_scheduler_inv(v),
        v.peers.dom().contains(id),
    ensures
        v.peers[id].config_generation == v.config_generation,
        v.peers[id].config_generation >= 1,
        v.peers[id].in_flight is Some ==> v.peers[id].in_flight.unwrap().request_id >= 1
            && v.peers[id].control_supported && v.ports.len() > 0,
{
}

/// Tracks, per peer, the registration that owns NAT probing, the probe in
/// flight, and the profile learned; decides when to issue directives and which
/// results to accept.
pub struct NatProbeScheduler {
    sn_peer_id: P2pId,
    ports: Vec<u16>,
    config_generation: u64,
    next_registration_generation: u64,
    next_request_id: u64,
    peers: PeerTable<PeerProbeState>,
}

impl View for NatProbeScheduler {
    type V = NatProbeSchedulerView;

    closed spec fn view(&self) -> NatProbeSchedulerView {
        NatProbeSchedulerView {
            sn_peer_id: self.sn_peer_id@,
            ports: self.ports@,
            config_generation: self.config_generation,
            next_registration_generation: self.next_registration_generation,
            next_request_id: self.next_request_id,
            peers: self.peers@,
        }
    }
}

impl NatProbeScheduler {
    pub closed spec fn wf(&self) -> bool {
        self.peers.wf() && spec_scheduler_inv(self@)
    }

    /// A well-formed scheduler satisfies the scheduler invariant.
    pub proof fn lemma_wf_inv(&self)
        requires
            self.wf(),
        ensures
            spec_scheduler_inv(self@),
    {
    }

    pub fn new(sn_peer_id: P2pId) -> (r: Self)
        ensures
            r.wf(),
            r@ == (NatProbeSchedulerView {
                sn_peer_id: sn_peer_id@,
                ports: Seq::empty(),
                config_generation: 1,
                next_registration_generation: 1,
                next_request_id: 1,
                peers: Map::empty(),
            }),
    {
        let r = NatProbeScheduler {
            sn_peer_id,
            ports: Vec::new(),
            config_generation: 1,
            next_registration_generation: 1,
            next_request_id: 1,
            peers: PeerTable::new(),
        };
        assert(r@.ports =~= Seq::<u16>::empty());
        r
    }

    pub fn ports(&self) -> (r: &[u16])
        ensures
            r@ == self@.ports,
    {
        self.ports.as_slice()
    }

    fn in_flight_count(&self) -> (r: usize)
        requires
            self.wf(),
        ensures
            r == spec_in_flight_count(self@.peers),
    {
        let ghost f = spec_in_flight_pred(self@.peers);
        let mut count: usize = 0;
        let mut i: usize = 0;
        proof {
            self.peers.lemma_positions();
            self.peers.lemma_count(f);
        }
        while i < self.peers.len()
            invariant
                self.peers.wf(),
                i <= self.peers.spec_len(),
                f == spec_in_flight_pred(self.peers@),
                count == self.peers.count_positions(f, i as int),
                count <= i,
                forall|j: int|
                    0 <= j < self.peers.spec_len() ==> #[trigger] self.peers@.dom().contains(
                        self.peers.key_at(j),
                    ) && self.peers@[self.peers.key_at(j)] == self.peers.value_at(j),
            decreases self.peers.spec_len() - i,
        {
            let st = self.peers.value_at_index(i);
            proof {
                assert(self.peers@.dom().contains(self.peers.key_at(i as int)));
            }
            if st.in_flight.is_some() {
                count = count + 1;
            }
            i = i + 1;
        }
        count
    }

    fn register(
        &mut self,
        peer_id: &P2pId,
        tunnel_id: CmdTunnelId,
        remote_endpoint: Endpoint,
        control_supported: bool,
        now: Timestamp,
    )
        requires
            old(self).wf(),
        ensures
            final(self).wf(),
            final(self)@ == spec_register(
                old(self)@,
                peer_id@,
                tunnel_id,
                remote_endpoint,
                control_supported,
                now,
            ),
    {
        let trigger = if self.peers.contains(peer_id) {
            NatProbeTriggerReason::ExternalAddress
        } else {
            NatProbeTriggerReason::Online
        };
        let generation = self.next_registration_generation;
        self.next_registration_generation = next_generation(self.next_registration_generation);
        let state = PeerProbeState {
            authority_tunnel_id: tunnel_id,
            remote_endpoint,
            registration_generation: generation,
            config_generation: self.config_generation,
            in_flight: None,
            retry_after: 0,
            next_periodic_at: now,
            pending_trigger: Some(trigger),
            pending_demand: false,
            profile: None,
            control_supported,
        };
        self.peers.insert(peer_id.duplicate(), state);
    }

    fn finish_expired(&mut self, peer_id: &P2pId, now: Timestamp) -> (r: bool)
        requires
            old(self).wf(),
        ensures
            final(self).wf(),
            (final(self)@, r) == spec_finish_expired(old(self)@, peer_id@, now),
    {
        let Some(i) = self.peers.index_of(peer_id) else {
            return false;
        };
        let mut state = self.peers.value_at_index(i);
        let expired = match state.in_flight {
            Some(probe) => now > probe.expires_at,
            None => false,
        };
        if !expired {
            return false;
        }
        state.in_flight = None;
        state.profile = None;
        state.pending_trigger = None;
        state.retry_after = saturating_add(now, NAT_PROBE_FAILURE_BACKOFF);
        state.next_periodic_at = saturating_add(now, NAT_PROBE_PERIOD);
        self.peers.set_value_at(i, state);
        true
    }

    /// Offers a result reported by `peer_id`; answers why it was rejected,
    /// if it was, and the profile update it causes.
    fn accept_result(&mut self, peer_id: &P2pId, result: &NatProbeResult, now: Timestamp) -> (r: (
        Option<NatProbeResultRejectReason>,
        Option<Option<NatProfile>>,
    ))
        requires
            old(self).wf(),
        ensures
            final(self).wf(),
            r.0 == spec_reject_reason(old(self)@, peer_id@, result@, now),
            (final(self)@, r.1) == spec_accept_result(old(self)@, peer_id@, result@, now),
    {
        let Some(i) = self.peers.index_of(peer_id) else {
            return (Some(NatProbeResultRejectReason::MissingAuthority), None);
        };
        let mut state = self.peers.value_at_index(i);
        let profile_valid = result.profile.observation == NatMappingObservation::Unknown
            || result.profile.is_fresh(now);
        let rejection = if !state.control_supported {
            Some(NatProbeResultRejectReason::CapabilityUnsupported)
        } else if !result.is_supported() {
            Some(NatProbeResultRejectReason::VersionUnsupported)
        } else if !profile_valid {
            Some(NatProbeResultRejectReason::ProfileStale)
        } else if !result.sn_peer_id.same_as(&self.sn_peer_id) {
            Some(NatProbeResultRejectReason::SnMismatch)
        } else if !result.peer_id.same_as(peer_id) {
            Some(NatProbeResultRejectReason::PeerMismatch)
        } else if result.registration_generation != state.registration_generation {
            Some(NatProbeResultRejectReason::RegistrationGenerationMismatch)
        } else if result.probe_config_generation != state.config_generation {
            Some(NatProbeResultRejectReason::ConfigGenerationMismatch)
        } else {
            match state.in_flight {
                None => Some(NatProbeResultRejectReason::MissingInFlight),
                Some(probe) => if probe.request_id != result.request_id {
                    Some(NatProbeResultRejectReason::RequestMismatch)
                } else if now > probe.expires_at {
                    Some(NatProbeResultRejectReason::DeadlineExpired)
                } else {
                    None
                },
            }
        };
        if rejection.is_some() {
            return (rejection, None);
        }
        state.in_flight = None;
        state.pending_trigger = None;
        state.pending_demand = false;
        state.next_periodic_at = saturating_add(now, NAT_PROBE_PERIOD);
        let mut profile = result.profile;
        if profile.observation == NatMappingObservation::Unknown {
            state.profile = None;
            state.retry_after = saturating_add(now, NAT_PROBE_FAILURE_BACKOFF);
            self.peers.set_value_at(i, state);
            (None, Some(None))
        } else {
            profile.valid_until = state.next_periodic_at;
            state.retry_after = 0;
            state.profile = Some(profile);
            self.peers.set_value_at(i, state);
            (None, Some(Some(profile)))
        }
    }

    fn issue_if_due(&mut self, peer_id: &P2pId, now: Timestamp) -> (r: Option<NatProbeDirective>)
        requires
            old(self).wf(),
        ensures
            final(self).wf(),
            (final(self)@, match r {
                Some(d) => Some(d@),
                None => None,
            }) == spec_issue_if_due(old(self)@, peer_id@, now),
    {
        let in_flight_count = self.in_flight_count();
        let Some(i) = self.peers.index_of(peer_id) else {
            return None;
        };
        let mut state = self.peers.value_at_index(i);
        let due = if state.pending_trigger.is_some() {
            true
        } else if state.pending_demand && now >= state.retry_after {
            true
        } else {
            now >= state.next_periodic_at
        };
        if !due {
            return None;
        }
        if self.ports.len() == 0 || !state.control_supported || state.in_flight.is_some()
            || in_flight_count >= MAX_CONCURRENT_NAT_PROBES {
            return None;
        }
        let request_id = self.next_request_id;
        self.next_request_id = next_generation(self.next_request_id);
        let expires_at = saturating_add(now, NAT_PROBE_DIRECTIVE_TIMEOUT);
        state.in_flight = Some(InFlightProbe { request_id, expires_at });
        state.pending_trigger = None;
        state.pending_demand = false;
        self.peers.set_value_at(i, state);
        let ports = copy_ports(&self.ports);
        Some(
            NatProbeDirective {
                version: NAT_PROBE_CONTROL_VERSION,
                sn_peer_id: self.sn_peer_id.duplicate(),
                peer_id: peer_id.duplicate(),
                registration_generation: state.registration_generation,
                request_id,
                probe_config_generation: state.config_generation,
                expires_at,
                ports,
            },
        )
    }

    fn observe_ineligible_report(&mut self, peer_id: &P2pId, tunnel_id: CmdTunnelId) -> (r:
        ProbeTransition)
        requires
            old(self).wf(),
        ensures
            final(self).wf(),
            (final(self)@, r@) == spec_observe_ineligible(old(self)@, peer_id@, tunnel_id),
    {
        let invalidate = match self.peers.get(peer_id) {
            Some(state) => state.authority_tunnel_id == tunnel_id,
            None => false,
        };
        if invalidate {
            self.peers.remove(peer_id);
            ProbeTransition { directive: None, profile_update: Some(None) }
        } else {
            ProbeTransition { directive: None, profile_update: None }
        }
    }

    /// Handles a report from `peer_id` over `tunnel_id`, whose observed
    /// remote address is `remote_endpoint`, carrying the peer's probe-control
    /// version and, possibly, the result of a directive.
    pub fn observe_capable_report(
        &mut self,
        peer_id: &P2pId,
        tunnel_id: CmdTunnelId,
        remote_endpoint: Endpoint,
        control_version: Option<u8>,
        result: Option<NatProbeResult>,
        now: Timestamp,
    ) -> (r: ProbeTransition)
        requires
            old(self).wf(),
        ensures
            final(self).wf(),
            (final(self)@, r@) == spec_observe_capable_report(
                old(self)@,
                peer_id@,
                tunnel_id,
                remote_endpoint,
                control_version,
                match result {
                    Some(res) => Some(res@),
                    None => None,
                },
                now,
            ),
    {
        if remote_endpoint.protocol() != Protocol::Quic {
            return self.observe_ineligible_report(peer_id, tunnel_id);
        }
        if let Some(state) = self.peers.get(peer_id) {
            if state.authority_tunnel_id != tunnel_id {
                return ProbeTransition { directive: None, profile_update: None };
            }
        }
        let control_supported = match control_version {
            Some(v) => v == NAT_PROBE_CONTROL_VERSION,
            None => false,
        };
        let mut profile_update: Option<Option<NatProfile>> = None;
        let needs_registration = match self.peers.get(peer_id) {
            Some(state) => state.remote_endpoint.addr != remote_endpoint.addr,
            None => true,
        };
        if needs_registration {
            self.register(peer_id, tunnel_id, remote_endpoint, control_supported, now);
            profile_update = Some(None);
        } else {
            let i = self.peers.index_of(peer_id).unwrap();
            let mut state = self.peers.value_at_index(i);
            if state.control_supported && !control_supported {
                state.in_flight = None;
                state.profile = None;
                profile_update = Some(None);
            }
            state.control_supported = control_supported;
            self.peers.set_value_at(i, state);
        }
        if self.finish_expired(peer_id, now) {
            profile_update = Some(None);
        }
        if let Some(result) = result {
            let (_, update) = self.accept_result(peer_id, &result, now);
            if update.is_some() {
                profile_update = update;
            }
        }
        let directive = self.issue_if_due(peer_id, now);
        ProbeTransition { directive, profile_update }
    }

    /// Handles a control-only observation of `peer_id` over `tunnel_id`.
    pub fn observe_control(
        &mut self,
        peer_id: &P2pId,
        tunnel_id: CmdTunnelId,
        remote_endpoint: Endpoint,
        now: Timestamp,
    ) -> (r: ProbeTransition)
        requires
            old(self).wf(),
        ensures
            final(self).wf(),
            (final(self)@, r@) == spec_observe_control(
                old(self)@,
                peer_id@,
                tunnel_id,
                remote_endpoint,
                now,
            ),
    {
        if remote_endpoint.protocol() != Protocol::Quic {
            return self.observe_ineligible_report(peer_id, tunnel_id);
        }
        let existing = self.peers.get(peer_id);
        if let Some(state) = existing {
            if state.authority_tunnel_id != tunnel_id {
                return ProbeTransition { directive: None, profile_update: None };
            }
        }
        let mut profile_update: Option<Option<NatProfile>> = None;
        let needs_registration = match existing {
            Some(state) => state.remote_endpoint.addr != remote_endpoint.addr,
            None => true,
        };
        if needs_registration {
            let control_supported = match existing {
                Some(state) => state.control_supported,
                None => false,
            };
            self.register(peer_id, tunnel_id, remote_endpoint, control_supported, now);
            profile_update = Some(None);
        }
        if self.finish_expired(peer_id, now) {
            profile_update = Some(None);
        }
        ProbeTransition { directive: None, profile_update }
    }

    /// Applies a new probe-port configuration. When the effective ports
    /// change, every peer's probing restarts under a new configuration
    /// generation, and all peers are returned as affected.
    pub fn set_ports(&mut self, ports: Vec<u16>) -> (r: Vec<P2pId>)
        requires
            old(self).wf(),
        ensures
            final(self).wf(),
            final(self)@ == spec_set_ports(old(self)@, ports@),
            spec_effective_ports(ports@) == old(self)@.ports ==> r@.len() == 0,
            spec_effective_ports(ports@) != old(self)@.ports ==> {
                &&& forall|k: Seq<u8>|
                    old(self)@.peers.dom().contains(k) <==> exists|i: int|
                        0 <= i < r@.len() && #[trigger] r@[i]@ == k
                &&& forall|i: int, j: int| 0 <= i < j < r@.len() ==> r@[i]@ != r@[j]@
            },
    {
        let sorted = sort_ports(&ports);
        let valid = supported_nat_probe_ports(sorted.as_slice());
        let effective = if valid {
            sorted
        } else {
            Vec::new()
        };
        assert(effective@ =~= spec_effective_ports(ports@));
        if ports_eq(&effective, &self.ports) {
            return Vec::new();
        }
        let g = next_generation(self.config_generation);
        let ghost old_peers = self.peers;
        proof {
            old_peers.lemma_positions();
        }
        let affected = self.peers.keys();
        let ghost v0 = self@;
        let mut i: usize = 0;
        while i < self.peers.len()
            invariant
                self.peers.wf(),
                spec_scheduler_inv(v0),
                old_peers@ == v0.peers,
                self@.sn_peer_id == v0.sn_peer_id,
                self@.ports == v0.ports,
                self@.config_generation == v0.config_generation,
                self@.next_registration_generation == v0.next_registration_generation,
                self@.next_request_id == v0.next_request_id,
                old_peers.wf(),
                i <= self.peers.spec_len(),
                self.peers.spec_len() == old_peers.spec_len(),
                forall|j: int|
                    0 <= j < old_peers.spec_len() ==> self.peers.key_at(j) == old_peers.key_at(j),
                forall|j: int|
                    0 <= j < i ==> self.peers.value_at(j) == spec_config_reset(
                        old_peers.value_at(j),
                        g,
                    ),
                forall|j: int|
                    i <= j < old_peers.spec_len() ==> self.peers.value_at(j) == old_peers.value_at(j),
            decreases self.peers.spec_len() - i,
        {
            let st = self.peers.value_at_index(i);
            let st2 = PeerProbeState {
                config_generation: g,
                in_flight: None,
                pending_trigger: Some(NatProbeTriggerReason::Config),
                profile: None,
                ..st
            };
            self.peers.set_value_at(i, st2);
            i = i + 1;
        }
        proof {
            self.peers.lemma_positions();
            let target = Map::new(
                |k: Seq<u8>| old_peers@.dom().contains(k),
                |k: Seq<u8>| spec_config_reset(old_peers@[k], g),
            );
            assert forall|k: Seq<u8>| #[trigger] self.peers@.dom().contains(k) <==> target.dom().contains(k) by {
                if self.peers@.dom().contains(k) {
                    let j = choose|j: int| 0 <= j < self.peers.spec_len() && self.peers.key_at(j) == k;
                    assert(old_peers@.dom().contains(old_peers.key_at(j)));
                }
                if old_peers@.dom().contains(k) {
                    let j = choose|j: int| 0 <= j < old_peers.spec_len() && old_peers.key_at(j) == k;
                    assert(self.peers@.dom().contains(self.peers.key_at(j)));
                }
            }
            assert forall|k: Seq<u8>| #[trigger] self.peers@.dom().contains(k) implies self.peers@[k]
                == target[k] by {
                let j = choose|j: int| 0 <= j < self.peers.spec_len() && self.peers.key_at(j) == k;
                assert(self.peers@[self.peers.key_at(j)] == self.peers.value_at(j));
                assert(old_peers@[old_peers.key_at(j)] == old_peers.value_at(j));
            }
            assert(self.peers@ =~= target);
            assert forall|k: Seq<u8>|
                old_peers@.dom().contains(k) <==> exists|i: int|
                    0 <= i < affected@.len() && #[trigger] affected@[i]@ == k by {
                if old_peers@.dom().contains(k) {
                    let j = choose|j: int| 0 <= j < old_peers.spec_len() && old_peers.key_at(j) == k;
                    assert(affected@[j]@ == k);
                }
                if exists|i: int| 0 <= i < affected@.len() && #[trigger] affected@[i]@ == k {
                    let j = choose|i: int| 0 <= i < affected@.len() && #[trigger] affected@[i]@ == k;
                    assert(old_peers@.dom().contains(old_peers.key_at(j)));
                }
            }
        }
        self.ports = effective;
        self.config_generation = g;
        affected
    }

    /// Changes the SN's own identity; all registrations are dropped when it
    /// actually changes.
    pub fn set_sn_peer_id(&mut self, sn_peer_id: &P2pId)
        requires
            old(self).wf(),
        ensures
            final(self).wf(),
            old(self)@.sn_peer_id == sn_peer_id@ ==> final(self)@ == old(self)@,
            old(self)@.sn_peer_id != sn_peer_id@ ==> final(self)@ == (NatProbeSchedulerView {
                sn_peer_id: sn_peer_id@,
                peers: Map::empty(),
                ..old(self)@
            }),
    {
        if self.sn_peer_id.same_as(sn_peer_id) {
            return;
        }
        self.sn_peer_id = sn_peer_id.duplicate();
        self.peers.clear();
    }

    /// Asks for a probe of `peer_id` when no fresh profile is published.
    pub fn mark_demand(&mut self, peer_id: &P2pId, now: Timestamp)
        requires
            old(self).wf(),
        ensures
            final(self).wf(),
            ({
                let v = old(self)@;
                if v.peers.dom().contains(peer_id@) && spec_current_profile(v, peer_id@, now) is None
                    && !v.peers[peer_id@].pending_demand {
                    final(self)@ == NatProbeSchedulerView {
                        peers: v.peers.insert(
                            peer_id@,
                            PeerProbeState { pending_demand: true, ..v.peers[peer_id@] },
                        ),
                        ..v
                    }
                } else {
                    final(self)@ == v
                }
            }),
    {
        let profile_missing = self.current_profile(peer_id, now).is_none();
        let Some(i) = self.peers.index_of(peer_id) else {
            return;
        };
        let mut state = self.peers.value_at_index(i);
        if profile_missing && !state.pending_demand {
            state.pending_demand = true;
            self.peers.set_value_at(i, state);
        }
    }

    pub fn authority_tunnel(&self, peer_id: &P2pId) -> (r: Option<CmdTunnelId>)
        requires
            self.wf(),
        ensures
            r == (if self@.peers.dom().contains(peer_id@) {
                Some(self@.peers[peer_id@].authority_tunnel_id)
            } else {
                None::<CmdTunnelId>
            }),
    {
        match self.peers.get(peer_id) {
            Some(state) => Some(state.authority_tunnel_id),
            None => None,
        }
    }

    /// Snapshot of a peer's registration: its authority tunnel and generation.
    pub fn authority_registration(&self, peer_id: &P2pId) -> (r: Option<(CmdTunnelId, u64)>)
        requires
            self.wf(),
        ensures
            r == (if self@.peers.dom().contains(peer_id@) {
                Some(
                    (
                        self@.peers[peer_id@].authority_tunnel_id,
                        self@.peers[peer_id@].registration_generation,
                    ),
                )
            } else {
                None::<(CmdTunnelId, u64)>
            }),
    {
        match self.peers.get(peer_id) {
            Some(state) => Some((state.authority_tunnel_id, state.registration_generation)),
            None => None,
        }
    }

    /// Every registered peer with its authority tunnel, each peer once.
    pub fn authorities(&self) -> (r: Vec<(P2pId, CmdTunnelId)>)
        requires
            self.wf(),
        ensures
            forall|k: Seq<u8>|
                self@.peers.dom().contains(k) <==> exists|i: int|
                    0 <= i < r@.len() && #[trigger] r@[i].0@ == k,
            forall|i: int|
                0 <= i < r@.len() ==> #[trigger] self@.peers.dom().contains(r@[i].0@)
                    && r@[i].1 == self@.peers[r@[i].0@].authority_tunnel_id,
            forall|i: int, j: int| 0 <= i < j < r@.len() ==> r@[i].0@ != r@[j].0@,
    {
        proof {
            self.peers.lemma_positions();
        }
        let mut out: Vec<(P2pId, CmdTunnelId)> = Vec::new();
        let mut i: usize = 0;
        while i < self.peers.len()
            invariant
                self.peers.wf(),
                i <= self.peers.spec_len(),
                out@.len() == i,
                forall|j: int|
                    0 <= j < i ==> #[trigger] out@[j].0@ == self.peers.key_at(j) && out@[j].1
                        == self.peers.value_at(j).authority_tunnel_id,
            decreases self.peers.spec_len() - i,
        {
            let id = self.peers.key_ref_at(i).duplicate();
            let st = self.peers.value_at_index(i);
            out.push((id, st.authority_tunnel_id));
            i = i + 1;
        }
        proof {
            assert forall|k: Seq<u8>|
                self@.peers.dom().contains(k) <==> exists|i: int|
                    0 <= i < out@.len() && #[trigger] out@[i].0@ == k by {
                if self@.peers.dom().contains(k) {
                    let j = choose|j: int| 0 <= j < self.peers.spec_len() && self.peers.key_at(j) == k;
                    assert(out@[j].0@ == k);
                }
            }
            assert forall|i: int|
                0 <= i < out@.len() implies #[trigger] self@.peers.dom().contains(out@[i].0@)
                && out@[i].1 == self@.peers[out@[i].0@].authority_tunnel_id by {
                assert(out@[i].0@ == self.peers.key_at(i));
            }
        }
        out
    }

    /// Expires every overdue directive; returns the peers whose profile this
    /// withdrew, each once.
    pub fn expire_due(&mut self, now: Timestamp) -> (r: Vec<P2pId>)
        requires
            old(self).wf(),
        ensures
            final(self).wf(),
            final(self)@ == (NatProbeSchedulerView {
                peers: Map::new(
                    |k: Seq<u8>| old(self)@.peers.dom().contains(k),
                    |k: Seq<u8>| spec_finish_state(old(self)@.peers[k], now).0,
                ),
                ..old(self)@
            }),
            forall|k: Seq<u8>|
                (old(self)@.peers.dom().contains(k) && spec_finish_state(old(self)@.peers[k], now).1)
                    <==> exists|i: int| 0 <= i < r@.len() && #[trigger] r@[i]@ == k,
            forall|i: int, j: int| 0 <= i < j < r@.len() ==> r@[i]@ != r@[j]@,
    {
        let ghost old_peers = self.peers;
        let ghost old_view = self@;
        proof {
            old_peers.lemma_positions();
        }
        let mut invalidated: Vec<P2pId> = Vec::new();
        let ghost mut picked: Seq<int> = Seq::empty();
        let mut i: usize = 0;
        while i < self.peers.len()
            invariant
                self.peers.wf(),
                old_peers.wf(),
                spec_scheduler_inv(old_view),
                old_peers@ == old_view.peers,
                self@.sn_peer_id == old_view.sn_peer_id,
                self@.ports == old_view.ports,
                self@.config_generation == old_view.config_generation,
                self@.next_registration_generation == old_view.next_registration_generation,
                self@.next_request_id == old_view.next_request_id,
                i <= self.peers.spec_len(),
                self.peers.spec_len() == old_peers.spec_len(),
                forall|j: int|
                    0 <= j < old_peers.spec_len() ==> self.peers.key_at(j) == old_peers.key_at(j),
                forall|j: int|
                    0 <= j < i ==> self.peers.value_at(j) == spec_finish_state(
                        old_peers.value_at(j),
                        now,
                    ).0,
                forall|j: int|
                    i <= j < old_peers.spec_len() ==> self.peers.value_at(j) == old_peers.value_at(j),
                picked.len() == invalidated@.len(),
                forall|a: int| 0 <= a < picked.len() ==> 0 <= #[trigger] picked[a] < i,
                forall|a: int, b: int| 0 <= a < b < picked.len() ==> picked[a] < picked[b],
                forall|a: int|
                    0 <= a < picked.len() ==> #[trigger] invalidated@[a]@ == old_peers.key_at(
                        picked[a],
                    ),
                forall|j: int|
                    0 <= j < i ==> (spec_finish_state(old_peers.value_at(j), now).1 <==> exists|a: int|
                        0 <= a < picked.len() && #[trigger] picked[a] == j),
            decreases self.peers.spec_len() - i,
        {
            let st = self.peers.value_at_index(i);
            let expired = match st.in_flight {
                Some(probe) => now > probe.expires_at,
                None => false,
            };
            let ghost picked_before = picked;
            if expired {
                let st2 = PeerProbeState {
                    in_flight: None,
                    profile: None,
                    pending_trigger: None,
                    retry_after: saturating_add(now, NAT_PROBE_FAILURE_BACKOFF),
                    next_periodic_at: saturating_add(now, NAT_PROBE_PERIOD),
                    ..st
                };
                self.peers.set_value_at(i, st2);
                invalidated.push(self.peers.key_ref_at(i).duplicate());
                proof {
                    picked = picked.push(i as int);
                }
            }
            proof {
                assert forall|j: int|
                    0 <= j < i + 1 implies (spec_finish_state(old_peers.value_at(j), now).1
                    <==> exists|a: int| 0 <= a < picked.len() && #[trigger] picked[a] == j) by {
                    if j < i {
                        if exists|a: int| 0 <= a < picked_before.len() && #[trigger] picked_before[a] == j {
                            let a = choose|a: int| 0 <= a < picked_before.len() && #[trigger] picked_before[a] == j;
                            assert(picked[a] == j);
                        }
                        if exists|a: int| 0 <= a < picked.len() && #[trigger] picked[a] == j {
                            let a = choose|a: int| 0 <= a < picked.len() && #[trigger] picked[a] == j;
                            if expired {
                                assert(a < picked_before.len());
                            }
                            assert(picked_before[a] == j);
                        }
                    } else {
                        if expired {
                            assert(picked[picked.len() - 1] == j);
                        } else {
                            if exists|a: int| 0 <= a < picked.len() && #[trigger] picked[a] == j {
                                let a = choose|a: int| 0 <= a < picked.len() && #[trigger] picked[a] == j;
                                assert(picked[a] < i);
                            }
                        }
                    }
                }
            }
            i = i + 1;
        }
        proof {
            self.peers.lemma_positions();
            let target = Map::new(
                |k: Seq<u8>| old_peers@.dom().contains(k),
                |k: Seq<u8>| spec_finish_state(old_peers@[k], now).0,
            );
            assert forall|k: Seq<u8>| #[trigger] self.peers@.dom().contains(k) <==> target.dom().contains(k) by {
                if self.peers@.dom().contains(k) {
                    let j = choose|j: int| 0 <= j < self.peers.spec_len() && self.peers.key_at(j) == k;
                    assert(old_peers@.dom().contains(old_peers.key_at(j)));
                }
                if old_peers@.dom().contains(k) {
                    let j = choose|j: int| 0 <= j < old_peers.spec_len() && old_peers.key_at(j) == k;
                    assert(self.peers@.dom().contains(self.peers.key_at(j)));
                }
            }
            assert forall|k: Seq<u8>| #[trigger] self.peers@.dom().contains(k) implies self.peers@[k]
                == target[k] by {
                let j = choose|j: int| 0 <= j < self.peers.spec_len() && self.peers.key_at(j) == k;
                assert(self.peers@[self.peers.key_at(j)] == self.peers.value_at(j));
                assert(old_peers@[old_peers.key_at(j)] == old_peers.value_at(j));
            }
            assert(self.peers@ =~= target);
            assert forall|k: Seq<u8>|
                (old_view.peers.dom().contains(k) && spec_finish_state(old_view.peers[k], now).1)
                    <==> exists|a: int| 0 <= a < invalidated@.len() && #[trigger] invalidated@[a]@ == k by {
                if old_view.peers.dom().contains(k) && spec_finish_state(old_view.peers[k], now).1 {
                    let j = choose|j: int| 0 <= j < old_peers.spec_len() && old_peers.key_at(j) == k;
                    assert(old_peers@.dom().contains(old_peers.key_at(j)));
                    assert(old_peers@[old_peers.key_at(j)] == old_peers.value_at(j));
                    let a = choose|a: int| 0 <= a < picked.len() && #[trigger] picked[a] == j;
                    assert(invalidated@[a]@ == k);
                }
                if exists|a: int| 0 <= a < invalidated@.len() && #[trigger] invalidated@[a]@ == k {
                    let a = choose|a: int| 0 <= a < invalidated@.len() && #[trigger] invalidated@[a]@ == k;
                    let j = picked[a];
                    assert(old_peers@.dom().contains(old_peers.key_at(j)));
                    assert(old_peers@[old_peers.key_at(j)] == old_peers.value_at(j));
                    assert(exists|b: int| 0 <= b < picked.len() && #[trigger] picked[b] == j);
                }
            }
            assert forall|a: int, b: int|
                0 <= a < b < invalidated@.len() implies invalidated@[a]@ != invalidated@[b]@ by {
                assert(picked[a] < picked[b]);
                assert(old_peers.key_at(picked[a]) != old_peers.key_at(picked[b]));
            }
        }
        invalidated
    }

    pub fn current_profile(&self, peer_id: &P2pId, now: Timestamp) -> (r: Option<NatProfile>)
        requires
            self.wf(),
        ensures
            r == spec_current_profile(self@, peer_id@, now),
    {
        match self.peers.get(peer_id) {
            Some(state) => match state.profile {
                Some(p) => if p.is_fresh(now) {
                    Some(p)
                } else {
                    None
                },
                None => None,
            },
            None => None,
        }
    }

    /// Drops the registration of `peer_id`; answers whether there was one.
    pub fn remove_peer(&mut self, peer_id: &P2pId, reason: NatProbeAuthorityRemovalReason) -> (r:
        bool)
        requires
            old(self).wf(),
        ensures
            final(self).wf(),
            r == old(self)@.peers.dom().contains(peer_id@),
            final(self)@ == (NatProbeSchedulerView { peers: old(self)@.peers.remove(peer_id@), ..old(self)@ }),
    {
        self.peers.remove(peer_id).is_some()
    }

    /// Drops the registration of `peer_id` only when it still is the one
    /// captured in the snapshot `(expected_tunnel_id, expected_registration_generation)`.
    pub fn remove_peer_if_authority(
        &mut self,
        peer_id: &P2pId,
        expected_tunnel_id: CmdTunnelId,
        expected_registration_generation: u64,
        reason: NatProbeAuthorityRemovalReason,
    ) -> (r: bool)
        requires
            old(self).wf(),
        ensures
            final(self).wf(),
            r == (old(self)@.peers.dom().contains(peer_id@) && old(self)@.peers[peer_id@].authority_tunnel_id
                == expected_tunnel_id && old(self)@.peers[peer_id@].registration_generation
                == expected_registration_generation),
            r ==> final(self)@ == (NatProbeSchedulerView { peers: old(self)@.peers.remove(peer_id@), ..old(self)@ }),
            !r ==> final(self)@ == old(self)@,
    {
        let matches_snapshot = match self.peers.get(peer_id) {
            Some(state) => state.authority_tunnel_id == expected_tunnel_id
                && state.registration_generation == expected_registration_generation,
            None => false,
        };
        if !matches_snapshot {
            return false;
        }
        self.remove_peer(peer_id, reason)
    }

    /// Drops the registration of `peer_id` when its authority tunnel is not
    /// among `live_tunnels`, the tunnels the peer still has open; answers
    /// whether it did (the peer's published profile is then withdrawn).
    pub fn reconcile_authority(&mut self, peer_id: &P2pId, live_tunnels: &[CmdTunnelId]) -> (r: bool)
        requires
            old(self).wf(),
        ensures
            final(self).wf(),
            r == (old(self)@.peers.dom().contains(peer_id@) && !live_tunnels@.contains(
                old(self)@.peers[peer_id@].authority_tunnel_id,
            )),
            r ==> final(self)@ == (NatProbeSchedulerView { peers: old(self)@.peers.remove(peer_id@), ..old(self)@ }),
            !r ==> final(self)@ == old(self)@,
    {
        let authority = match self.authority_tunnel(peer_id) {
            Some(a) => a,
            None => {
                return false;
            },
        };
        let mut i: usize = 0;
        while i < live_tunnels.len()
            invariant
                i <= live_tunnels@.len(),
                self.wf(),
                self@ == old(self)@,
                old(self)@.peers.dom().contains(peer_id@),
                authority == old(self)@.peers[peer_id@].authority_tunnel_id,
                forall|k: int| 0 <= k < i ==> live_tunnels@[k] != authority,
            decreases live_tunnels.len() - i,
        {
            if live_tunnels[i] == authority {
                assert(live_tunnels@[i as int] == authority);
                return false;
            }
            i = i + 1;
        }
        self.remove_peer(peer_id, NatProbeAuthorityRemovalReason::TunnelMissing)
    }
}

proof fn lemma_u16_leq_total()
    ensures
        vstd::relations::total_ordering(spec_ascending()),
{
}

/// The ports in ascending order.
fn sort_ports(ports: &Vec<u16>) -> (r: Vec<u16>)
    ensures
        r@ == ports@.sort_by(spec_ascending()),
        sorted_by(r@, spec_ascending()),
{
    let ghost leq = spec_ascending();
    let mut out: Vec<u16> = Vec::with_capacity(ports.len());
    let mut i: usize = 0;
    assert(out@ =~= ports@.subrange(0, 0));
    while i < ports.len()
        invariant
            i <= ports.len(),
            leq == spec_ascending(),
            sorted_by(out@, leq),
            out@.to_multiset() == ports@.subrange(0, i as int).to_multiset(),
            out@.len() == i,
        decreases ports.len() - i,
    {
        let x = ports[i];
        let mut pos: usize = 0;
        while pos < out.len() && out[pos] <= x
            invariant
                pos <= out@.len(),
                forall|j: int| 0 <= j < pos ==> out@[j] <= x,
            decreases out@.len() - pos,
        {
            pos = pos + 1;
        }
        let ghost before = out@;
        out.insert(pos, x);
        proof {
            assert(out@ == before.insert(pos as int, x));
            vstd::seq_lib::to_multiset_insert(before, pos as int, x);
            assert(ports@.subrange(0, i + 1) =~= ports@.subrange(0, i as int).push(x));
            vstd::seq_lib::to_multiset_build(ports@.subrange(0, i as int), x);
            assert forall|a: int, b: int| 0 <= a < b < out@.len() implies #[trigger] leq(
                out@[a],
                out@[b],
            ) by {
                if pos < before.len() {
                    assert(before[pos as int] > x);
                }
                if b < pos {
                    assert(leq(before[a], before[b]));
                } else if b == pos {
                    assert(before[a] <= x);
                } else if a < pos {
                    assert(leq(before[a], before[b - 1]));
                } else if a == pos {
                    assert(leq(before[pos as int], before[b - 1]));
                } else {
                    assert(leq(before[a - 1], before[b - 1]));
                }
            }
        }
        i = i + 1;
    }
    proof {
        assert(ports@.subrange(0, ports@.len() as int) =~= ports@);
        lemma_u16_leq_total();
        ports@.lemma_sort_by_ensures(leq);
        vstd::seq_lib::lemma_sorted_unique(out@, ports@.sort_by(leq), leq);
    }
    out
}

fn ports_eq(a: &Vec<u16>, b: &Vec<u16>) -> (r: bool)
    ensures
        r == (a@ == b@),
{
    if a.len() != b.len() {
        return false;
    }
    let mut i: usize = 0;
    while i < a.len()
        invariant
            a.len() == b.len(),
            i <= a.len(),
            forall|j: int| 0 <= j < i ==> a@[j] == b@[j],
        decreases a.len() - i,
    {
        if a[i] != b[i] {
            return false;
        }
        i = i + 1;
    }
    assert(a@ =~= b@);
    true
}

fn copy_ports(ports: &Vec<u16>) -> (r: Vec<u16>)
    ensures
        r@ == ports@,
{
    let mut out: Vec<u16> = Vec::with_capacity(ports.len());
    let mut i: usize = 0;
    while i < ports.len()
        invariant
            i <= ports.len(),
            out@ == ports@.subrange(0, i as int),
        decreases ports.len() - i,
    {
        out.push(ports[i]);
        i = i + 1;
        assert(out@ =~= ports@.subrange(0, i as int));
    }
    assert(ports@.subrange(0, ports.len() as int) =~= ports@);
    out
}

} // verus!

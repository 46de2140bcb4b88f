use vstd::prelude::*;
use crate::endpoint::Endpoint;
use crate::error::{spec_error_code_value, P2pError, P2pErrorCode, P2pResult};
use crate::networks::ValidateResult;
use crate::endpoint::{EndpointArea, Protocol};
use crate::nat_type::NatProfile;
use crate::p2p_identity::P2pIdentityCertRef;
use crate::sn::protocol::message::{ReportSn, ReportSnResp, SnCall, SnQueryResp};
use crate::sn::protocol::sn::{NatProbeDirective, NatProbeResult};
use crate::sn::service::nat_probe_scheduler::{
    spec_current_profile, spec_observe_capable_report, spec_observe_control, NatProbeScheduler,
    NatProbeSchedulerView, PeerProbeState, ProbeTransition, ProbeTransitionView,
};
use crate::sn::protocol::v0::{SnCallResp, SnCalled};
use crate::sn::service::call_stub::{CallStub, CallStubView};
use crate::sn::service::endpoints::{
    classify_observed_endpoint, dedup_endpoints, extend_unique_endpoints,
    is_direct_observed_candidate, observed_endpoint_candidates, reported_endpoints_for_peer,
    sanitize_reported_endpoints, spec_classify_observed, spec_direct_candidates,
    spec_extend_unique, spec_observed_candidates, spec_sanitize, MAX_REPORTED_LOCAL_ENDPOINTS,
    lemma_extend_unique_covers, spec_contains_endpoint,
};
use crate::endpoint::spec_same_endpoint;
use crate::sn::service::peer_manager::{spec_add_or_update, CachedPeerInfo, PeerManager};
use crate::types::{copy_bytes, copy_vec, CmdTunnelId, EncodedP2pIdentityCert, P2pId, Sequence, Timestamp};

verus! {

/// What a connection validator is shown of a client.
pub struct SnConnectionValidateContext {
    pub client_id: P2pId,
    pub client_cert: EncodedP2pIdentityCert,
}

/// Decides whether a client may use this SN.
pub trait SnConnectionValidator {
    fn validate(&self, ctx: &SnConnectionValidateContext) -> P2pResult<ValidateResult>;
}

/// The validator that accepts every client.
pub struct AllowAllSnConnectionValidator;

impl SnConnectionValidator for AllowAllSnConnectionValidator {
    fn validate(&self, _ctx: &SnConnectionValidateContext) -> (r: P2pResult<ValidateResult>)
        ensures
            r matches Ok(ValidateResult::Accept),
    {
        Ok(ValidateResult::Accept)
    }
}

pub fn allow_all_sn_connection_validator() -> (r: AllowAllSnConnectionValidator) {
    AllowAllSnConnectionValidator
}

/// What a validator's verdict means for the connection: an accepted client
/// goes on, a rejected one is denied, and a failing validator's error stands.
pub fn connection_verdict(verdict: P2pResult<ValidateResult>) -> (r: P2pResult<()>)
    ensures
        verdict matches Ok(ValidateResult::Accept) ==> r is Ok,
        verdict matches Ok(ValidateResult::Reject(_)) ==> r == Err::<(), P2pError>(
            P2pError { code: P2pErrorCode::PermissionDenied },
        ),
        verdict matches Err(e) ==> r == Err::<(), P2pError>(e),
{
    match verdict {
        Ok(ValidateResult::Accept) => Ok(()),
        Ok(ValidateResult::Reject(_)) => Err(P2pError::new(P2pErrorCode::PermissionDenied)),
        Err(e) => Err(e),
    }
}

/// The validation context for a client whose certificate parsed to an
/// identity `cert_id` (or failed to parse): the certificate must be the
/// authenticated peer's own.
pub fn validate_context_from_cert(
    peer_id: &P2pId,
    cert_id: P2pResult<P2pId>,
    client_cert: EncodedP2pIdentityCert,
) -> (r: P2pResult<SnConnectionValidateContext>)
    ensures
        cert_id matches Err(e) ==> r == Err::<SnConnectionValidateContext, P2pError>(e),
        cert_id matches Ok(id) ==> (id@ != peer_id@ ==> r == Err::<SnConnectionValidateContext, P2pError>(
            P2pError { code: P2pErrorCode::PermissionDenied },
        )) && (id@ == peer_id@ ==> (r matches Ok(ctx) && ctx.client_id@ == peer_id@
            && ctx.client_cert@ == client_cert@)),
{
    let id = match cert_id {
        Ok(id) => id,
        Err(e) => {
            return Err(e);
        },
    };
    if !id.same_as(peer_id) {
        return Err(P2pError::new(P2pErrorCode::PermissionDenied));
    }
    Ok(SnConnectionValidateContext { client_id: peer_id.duplicate(), client_cert })
}

/// The client's certificate: the one sent with the request, else the one
/// cached for the client; a client with neither is denied.
pub fn client_cert_from_request_or_cache(
    peers: &PeerManager,
    client_id: &P2pId,
    request_cert: Option<EncodedP2pIdentityCert>,
) -> (r: P2pResult<EncodedP2pIdentityCert>)
    requires
        peers.wf(),
    ensures
        request_cert matches Some(c) ==> (r matches Ok(x) && x@ == c@),
        request_cert is None && peers@.dom().contains(client_id@) ==> (r matches Ok(x) && x@
            == peers@[client_id@].desc.encoded),
        request_cert is None && !peers@.dom().contains(client_id@) ==> r == Err::<
            EncodedP2pIdentityCert,
            P2pError,
        >(P2pError { code: P2pErrorCode::PermissionDenied }),
{
    if let Some(cert) = request_cert {
        return Ok(cert);
    }
    match peers.find_peer(client_id) {
        Some(cached) => cached.desc.get_encoded_cert(),
        None => Err(P2pError::new(P2pErrorCode::PermissionDenied)),
    }
}

/// The SN identity to act under: the configured SN id, else the local id.
pub fn effective_local_sn_id(local_sn_id: &Option<P2pId>, local_id: &P2pId) -> (r: P2pId)
    ensures
        r@ == (match local_sn_id {
            Some(id) => id@,
            None => local_id@,
        }),
{
    match local_sn_id {
        Some(id) => id.duplicate(),
        None => local_id.duplicate(),
    }
}

/// What the SN does with a call once it knows the peers involved.
pub enum CallDecision {
    /// The caller is not known here: the call is answered `NotFound`.
    FromNotFound,
    /// The callee is not known here: the call goes to the SN serving the
    /// callee, and is answered `NotFound` if none takes it.
    RelayToServingSn,
    /// There is no certificate of the caller: answered `NotFound`.
    NoFromDesc,
    /// The call is answered `Ok`; when `deliver` holds the callee is sent an
    /// `SnCalled`, with `reverse_eps` the caller's endpoints to try.
    Answer { deliver: bool, reverse_eps: Vec<Endpoint> },
}

/// The endpoints of the caller that the callee may connect back to: the
/// candidates from what the SN observed of the caller, then its reported
/// local endpoints.
pub open spec fn spec_call_reverse_eps(from: crate::sn::service::peer_manager::CachedPeerInfoView, observed: Seq<Endpoint>) -> Seq<Endpoint> {
    spec_extend_unique(
        spec_observed_candidates(
            observed,
            from.map_ports,
            spec_extend_unique(from.desc.endpoints, from.local_eps),
        ),
        from.local_eps,
    )
}

proof fn lemma_mapped_all_lists(observed: Seq<Endpoint>, map_ports: Seq<(Protocol, u16)>, i: int, j: int)
    requires
        0 <= i < observed.len(),
        0 <= j < map_ports.len(),
    ensures
        spec_contains_endpoint(
            crate::sn::service::endpoints::spec_mapped_all(observed, map_ports),
            Endpoint {
                protocol: map_ports[j].0,
                addr: crate::endpoint::SocketAddr { ip: observed[i].addr.ip, port: map_ports[j].1 },
                area: EndpointArea::Mapped,
            },
        ),
    decreases observed.len(),
{
    let m = Endpoint {
        protocol: map_ports[j].0,
        addr: crate::endpoint::SocketAddr { ip: observed[i].addr.ip, port: map_ports[j].1 },
        area: EndpointArea::Mapped,
    };
    let init = observed.drop_last();
    let prev = crate::sn::service::endpoints::spec_mapped_all(init, map_ports);
    let last = crate::sn::service::endpoints::spec_mapped_for(observed.last(), map_ports);
    let all = crate::sn::service::endpoints::spec_mapped_all(observed, map_ports);
    assert(all == prev + last);
    if i == observed.len() - 1 {
        assert(all[prev.len() + j] == last[j]);
        assert(spec_same_endpoint(all[prev.len() + j], m));
    } else {
        assert(init[i] == observed[i]);
        lemma_mapped_all_lists(init, map_ports, i, j);
        let k = choose|k: int| 0 <= k < prev.len() && spec_same_endpoint(#[trigger] prev[k], m);
        assert(all[k] == prev[k]);
    }
}

/// The callee is offered every way back to the caller: for every endpoint
/// `o` the SN observed the caller on and every `(protocol, port)` the caller
/// maps, the endpoint with that protocol on `o`'s IP and that port; and
/// every local endpoint the caller reported.
pub proof fn lemma_reverse_eps_offer_mappings_and_locals(
    from: crate::sn::service::peer_manager::CachedPeerInfoView,
    observed: Seq<Endpoint>,
)
    ensures
        forall|i: int, j: int|
            #![trigger observed[i], from.map_ports[j]]
            0 <= i < observed.len() && 0 <= j < from.map_ports.len() ==> spec_contains_endpoint(
                spec_call_reverse_eps(from, observed),
                Endpoint {
                    protocol: from.map_ports[j].0,
                    addr: crate::endpoint::SocketAddr { ip: observed[i].addr.ip, port: from.map_ports[j].1 },
                    area: EndpointArea::Mapped,
                },
            ),
        forall|k: int|
            0 <= k < from.local_eps.len() ==> spec_contains_endpoint(
                spec_call_reverse_eps(from, observed),
                #[trigger] from.local_eps[k],
            ),
{
    let reported = spec_extend_unique(from.desc.endpoints, from.local_eps);
    let direct = spec_direct_candidates(observed, reported);
    let mapped = crate::sn::service::endpoints::spec_mapped_all(observed, from.map_ports);
    let cands = spec_observed_candidates(observed, from.map_ports, reported);
    assert forall|i: int, j: int|
        #![trigger observed[i], from.map_ports[j]]
        0 <= i < observed.len() && 0 <= j < from.map_ports.len() implies spec_contains_endpoint(
            spec_call_reverse_eps(from, observed),
            Endpoint {
                protocol: from.map_ports[j].0,
                addr: crate::endpoint::SocketAddr { ip: observed[i].addr.ip, port: from.map_ports[j].1 },
                area: EndpointArea::Mapped,
            },
        ) by {
        let m = Endpoint {
            protocol: from.map_ports[j].0,
            addr: crate::endpoint::SocketAddr { ip: observed[i].addr.ip, port: from.map_ports[j].1 },
            area: EndpointArea::Mapped,
        };
        lemma_mapped_all_lists(observed, from.map_ports, i, j);
        lemma_extend_unique_covers(direct, mapped, m);
        lemma_extend_unique_covers(cands, from.local_eps, m);
    }
    assert forall|k: int| 0 <= k < from.local_eps.len() implies spec_contains_endpoint(
        spec_call_reverse_eps(from, observed),
        #[trigger] from.local_eps[k],
    ) by {
        assert(spec_same_endpoint(from.local_eps[k], from.local_eps[k]));
        lemma_extend_unique_covers(cands, from.local_eps, from.local_eps[k]);
    }
}

/// How deciding a call changes the call stub and what it decides: an
/// unknown caller is not found, an unknown callee is relayed, a caller
/// without certificate is not found (the stub unchanged in all three);
/// otherwise the call is recorded at `now` and answered, delivered when it is
/// new and the caller insists or the callee is not on a WAN address.
pub open spec fn spec_call_decided(
    old_stub: CallStubView,
    new_stub: CallStubView,
    call_req: SnCall,
    from_peer: Option<&CachedPeerInfo>,
    to_peer: Option<&CachedPeerInfo>,
    has_from_desc: bool,
    observed_eps: Seq<Endpoint>,
    now: Timestamp,
    r: CallDecision,
) -> bool {
    &&& from_peer is None ==> r is FromNotFound && new_stub == old_stub
    &&& from_peer is Some && to_peer is None ==> r is RelayToServingSn && new_stub == old_stub
    &&& from_peer is Some && to_peer is Some && !has_from_desc ==> r is NoFromDesc && new_stub
        == old_stub
    &&& from_peer is Some && to_peer is Some && has_from_desc ==> ({
        let from = from_peer.unwrap()@;
        let to = to_peer.unwrap()@;
        let key = (call_req.from_peer_id@, call_req.tunnel_id.0);
        &&& new_stub == (CallStubView {
            last_recycle: old_stub.last_recycle,
            stubs: old_stub.stubs.insert(key, now),
        })
        &&& r matches CallDecision::Answer { deliver, reverse_eps } && deliver == (
        !old_stub.stubs.dom().contains(key) && (call_req.is_always_call || !to.is_wan))
            && reverse_eps@ == spec_call_reverse_eps(from, observed_eps)
    })
}

/// A call that is answered (both peers known, the caller's certificate at
/// hand) offers the callee, for every endpoint the SN observed the caller on
/// and every `(protocol, port)` the caller maps, the endpoint with that
/// protocol on the observed IP and that port, and every local endpoint the
/// caller reported.
pub proof fn lemma_answered_call_offers_mappings(
    old_stub: CallStubView,
    new_stub: CallStubView,
    call_req: SnCall,
    from_peer: Option<&CachedPeerInfo>,
    to_peer: Option<&CachedPeerInfo>,
    has_from_desc: bool,
    observed_eps: Seq<Endpoint>,
    now: Timestamp,
    r: CallDecision,
)
    requires
        spec_call_decided(old_stub, new_stub, call_req, from_peer, to_peer, has_from_desc, observed_eps, now, r),
        from_peer is Some,
        to_peer is Some,
        has_from_desc,
    ensures
        r matches CallDecision::Answer { reverse_eps, .. } && ({
            let from = from_peer.unwrap()@;
            &&& forall|i: int, j: int|
                #![trigger observed_eps[i], from.map_ports[j]]
                0 <= i < observed_eps.len() && 0 <= j < from.map_ports.len() ==> spec_contains_endpoint(
                    reverse_eps@,
                    Endpoint {
                        protocol: from.map_ports[j].0,
                        addr: crate::endpoint::SocketAddr { ip: observed_eps[i].addr.ip, port: from.map_ports[j].1 },
                        area: EndpointArea::Mapped,
                    },
                )
            &&& forall|k: int|
                0 <= k < from.local_eps.len() ==> spec_contains_endpoint(reverse_eps@, #[trigger] from.local_eps[k])
        }),
{
    lemma_reverse_eps_offer_mappings_and_locals(from_peer.unwrap()@, observed_eps);
}

/// Decides a call from the caller's and callee's cache entries, whether a
/// certificate of the caller is at hand, and the endpoints the SN observed
/// the caller on. A call that reaches the callee is recorded in `stub` at
/// `now`; the callee is sent the call when the call is new and either the
/// caller insists or the callee is not on a WAN address.
pub fn decide_call(
    stub: &mut CallStub,
    call_req: &SnCall,
    from_peer: Option<&CachedPeerInfo>,
    to_peer: Option<&CachedPeerInfo>,
    has_from_desc: bool,
    observed_eps: &[Endpoint],
    now: Timestamp,
) -> (r: CallDecision)
    requires
        old(stub).wf(),
    ensures
        final(stub).wf(),
        spec_call_decided(
            old(stub)@,
            final(stub)@,
            *call_req,
            from_peer,
            to_peer,
            has_from_desc,
            observed_eps@,
            now,
            r,
        ),
{
    let from = match from_peer {
        Some(f) => f,
        None => {
            return CallDecision::FromNotFound;
        },
    };
    let to = match to_peer {
        Some(t) => t,
        None => {
            return CallDecision::RelayToServingSn;
        },
    };
    let from_reported_eps = reported_endpoints_for_peer(from);
    let mut reverse_eps = observed_endpoint_candidates(
        observed_eps,
        from.map_ports.as_slice(),
        from_reported_eps.as_slice(),
    );
    extend_unique_endpoints(&mut reverse_eps, from.local_eps.as_slice());
    if !has_from_desc {
        return CallDecision::NoFromDesc;
    }
    let is_new = stub.insert(&call_req.from_peer_id, &call_req.tunnel_id, now);
    let deliver = is_new && (call_req.is_always_call || !to.is_wan);
    CallDecision::Answer { deliver, reverse_eps }
}

/// The `SnCalled` that delivers `call_req` to its callee under sequence
/// `seq`: the caller's own reverse endpoints without duplicates, then those
/// the SN found for it, the caller's certificate and everything else carried
/// over from the call.
pub fn build_called(
    call_req: SnCall,
    local_id: &P2pId,
    from_peer_cert: EncodedP2pIdentityCert,
    reverse_eps: &Vec<Endpoint>,
    seq: Sequence,
) -> (r: SnCalled)
    ensures
        r.seq == seq,
        r.sn_peer_id@ == local_id@,
        r.to_peer_id == call_req.to_peer_id,
        r.peer_info@ == from_peer_cert@,
        r.tunnel_id == call_req.tunnel_id,
        r.call_send_time == call_req.send_time,
        r.call_type == call_req.call_type,
        r.payload == call_req.payload,
        r.nat_context == call_req.nat_context,
        r.active_pn_list@ == (match call_req.active_pn_list {
            Some(l) => l@,
            None => Seq::empty(),
        }),
        r.reverse_endpoint_array@ == spec_extend_unique(
            spec_extend_unique(
                Seq::empty(),
                match call_req.reverse_endpoint_array {
                    Some(l) => l@,
                    None => Seq::empty(),
                },
            ),
            reverse_eps@,
        ),
{
    let mut reverse_endpoint_array = match call_req.reverse_endpoint_array {
        Some(l) => l,
        None => Vec::new(),
    };
    dedup_endpoints(&mut reverse_endpoint_array);
    extend_unique_endpoints(&mut reverse_endpoint_array, reverse_eps.as_slice());
    let active_pn_list = match call_req.active_pn_list {
        Some(l) => l,
        None => Vec::new(),
    };
    SnCalled {
        seq,
        to_peer_id: call_req.to_peer_id,
        sn_peer_id: local_id.duplicate(),
        peer_info: from_peer_cert,
        tunnel_id: call_req.tunnel_id,
        call_send_time: call_req.send_time,
        call_type: call_req.call_type,
        payload: call_req.payload,
        reverse_endpoint_array,
        active_pn_list,
        nat_context: call_req.nat_context,
    }
}

/// The scheduler once `id` is dropped unless its authority tunnel is among
/// `live`.
pub open spec fn spec_reconcile(v: NatProbeSchedulerView, id: Seq<u8>, live: Seq<CmdTunnelId>) -> NatProbeSchedulerView {
    if v.peers.dom().contains(id) && !live.contains(v.peers[id].authority_tunnel_id) {
        NatProbeSchedulerView { peers: v.peers.remove(id), ..v }
    } else {
        v
    }
}

/// The scheduler once a probe of `id` is asked for: a registered peer without
/// a fresh profile gets a pending demand.
pub open spec fn spec_mark_demand(v: NatProbeSchedulerView, id: Seq<u8>, now: Timestamp) -> NatProbeSchedulerView {
    if v.peers.dom().contains(id) && spec_current_profile(v, id, now) is None
        && !v.peers[id].pending_demand {
        NatProbeSchedulerView {
            peers: v.peers.insert(id, PeerProbeState { pending_demand: true, ..v.peers[id] }),
            ..v
        }
    } else {
        v
    }
}

/// What a call does to NAT probing before it is decided: the caller's
/// registration is reconciled with its open tunnels; when the tunnel the call
/// came over is known (`control`: its identifier and remote endpoint), the
/// scheduler, under this SN's identity, observes the caller's control on it;
/// then the callee's registration is reconciled and, lacking a fresh
/// profile, a probe of the callee is asked for. Gives the scheduler after
/// all that and the observation's transition, if there was one.
pub open spec fn spec_call_probe(
    v: NatProbeSchedulerView,
    local_id: Seq<u8>,
    caller: Seq<u8>,
    caller_tunnels: Seq<CmdTunnelId>,
    control: Option<(CmdTunnelId, Endpoint)>,
    callee: Seq<u8>,
    callee_tunnels: Seq<CmdTunnelId>,
    now: Timestamp,
) -> (NatProbeSchedulerView, Option<ProbeTransitionView>) {
    let (v2, tr) = spec_call_probe_caller(v, local_id, caller, caller_tunnels, control, now);
    (spec_mark_demand(spec_reconcile(v2, callee, callee_tunnels), callee, now), tr)
}

/// The caller's part of `spec_call_probe`: its reconciliation and the
/// observation of its control.
pub open spec fn spec_call_probe_caller(
    v: NatProbeSchedulerView,
    local_id: Seq<u8>,
    caller: Seq<u8>,
    caller_tunnels: Seq<CmdTunnelId>,
    control: Option<(CmdTunnelId, Endpoint)>,
    now: Timestamp,
) -> (NatProbeSchedulerView, Option<ProbeTransitionView>) {
    let v1 = spec_reconcile(v, caller, caller_tunnels);
    match control {
        Some((t, ep)) => {
            let (w, x) = spec_observe_control(spec_with_sn_peer_id(v1, local_id), caller, t, ep, now);
            (w, Some(x))
        },
        None => (v1, None),
    }
}

/// What handling a call did besides deciding it: whether the caller's and
/// the callee's registrations were dropped for want of their authority
/// tunnel, and the transition the caller's control observation gave.
pub struct CallProbeOutcome {
    pub caller_dropped: bool,
    pub callee_dropped: bool,
    pub transition: Option<ProbeTransition>,
}

/// Handles a call once its client is validated: NAT probing takes note of it
/// as `spec_call_probe` says, then the call is decided as `decide_call`
/// says. `caller_tunnels` and `callee_tunnels` are the command tunnels the
/// two peers have open, `control` the tunnel the call came over when its
/// remote endpoint is known.
pub fn handle_call_step(
    scheduler: &mut NatProbeScheduler,
    stub: &mut CallStub,
    local_id: &P2pId,
    caller_id: &P2pId,
    caller_tunnels: &[CmdTunnelId],
    control: Option<(CmdTunnelId, Endpoint)>,
    callee_tunnels: &[CmdTunnelId],
    call_req: &SnCall,
    from_peer: Option<&CachedPeerInfo>,
    to_peer: Option<&CachedPeerInfo>,
    has_from_desc: bool,
    observed_eps: &[Endpoint],
    now: Timestamp,
) -> (r: (CallDecision, CallProbeOutcome))
    requires
        old(scheduler).wf(),
        old(stub).wf(),
    ensures
        final(scheduler).wf(),
        final(stub).wf(),
        ({
            let (v, tr) = spec_call_probe(
                old(scheduler)@,
                local_id@,
                caller_id@,
                caller_tunnels@,
                control,
                call_req.to_peer_id@,
                callee_tunnels@,
                now,
            );
            &&& final(scheduler)@ == v
            &&& tr == (match r.1.transition {
                Some(t) => Some(t@),
                None => None,
            })
        }),
        r.1.caller_dropped == (old(scheduler)@.peers.dom().contains(caller_id@) && !caller_tunnels@.contains(
            old(scheduler)@.peers[caller_id@].authority_tunnel_id,
        )),
        ({
            let v2 = spec_call_probe_caller(
                old(scheduler)@,
                local_id@,
                caller_id@,
                caller_tunnels@,
                control,
                now,
            ).0;
            r.1.callee_dropped == (v2.peers.dom().contains(call_req.to_peer_id@)
                && !callee_tunnels@.contains(v2.peers[call_req.to_peer_id@].authority_tunnel_id))
        }),
        spec_call_decided(
            old(stub)@,
            final(stub)@,
            *call_req,
            from_peer,
            to_peer,
            has_from_desc,
            observed_eps@,
            now,
            r.0,
        ),
{
    let caller_dropped = scheduler.reconcile_authority(caller_id, caller_tunnels);
    let transition = match control {
        Some((t, ep)) => {
            scheduler.set_sn_peer_id(local_id);
            Some(scheduler.observe_control(caller_id, t, ep, now))
        },
        None => None,
    };
    let callee_dropped = scheduler.reconcile_authority(&call_req.to_peer_id, callee_tunnels);
    if scheduler.current_profile(&call_req.to_peer_id, now).is_none() {
        scheduler.mark_demand(&call_req.to_peer_id, now);
    }
    let decision = decide_call(stub, call_req, from_peer, to_peer, has_from_desc, observed_eps, now);
    (decision, CallProbeOutcome { caller_dropped, callee_dropped, transition })
}

/// The answer to a call under `decision`, or `None` when the call is to be
/// relayed first. Answered calls carry the callee's certificate.
pub fn call_answer(
    decision: &CallDecision,
    call_seq: Sequence,
    local_id: &P2pId,
    to_peer: Option<&CachedPeerInfo>,
) -> (r: Option<SnCallResp>)
    ensures
        decision is RelayToServingSn ==> r is None,
        decision is FromNotFound || decision is NoFromDesc ==> (r matches Some(resp) && resp.seq
            == call_seq && resp.sn_peer_id@ == local_id@ && resp.result == spec_error_code_value(
            P2pErrorCode::NotFound,
        ) && resp.to_peer_info is None),
        decision is Answer ==> (r matches Some(resp) && resp.seq == call_seq && resp.sn_peer_id@
            == local_id@ && resp.result == spec_error_code_value(P2pErrorCode::Success) && (match to_peer {
            Some(t) => (resp.to_peer_info matches Some(info) && info@ == t@.desc.encoded),
            None => resp.to_peer_info is None,
        })),
{
    match decision {
        CallDecision::RelayToServingSn => None,
        CallDecision::FromNotFound | CallDecision::NoFromDesc => Some(
            SnCallResp {
                seq: call_seq,
                sn_peer_id: local_id.duplicate(),
                result: P2pErrorCode::NotFound.value(),
                to_peer_info: None,
            },
        ),
        CallDecision::Answer { .. } => {
            let to_peer_info = match to_peer {
                Some(t) => Some(copy_bytes(t.desc.encoded_ref())),
                None => None,
            };
            Some(
                SnCallResp {
                    seq: call_seq,
                    sn_peer_id: local_id.duplicate(),
                    result: P2pErrorCode::Success.value(),
                    to_peer_info,
                },
            )
        },
    }
}

/// What a relayed call's target SN answers: whether it took the call, and the
/// callee's certificate when it knows the callee.
pub struct RelayCallOutcome {
    pub accepted: bool,
    pub to_peer_info: Option<EncodedP2pIdentityCert>,
}

/// Decides a call another SN relayed here. An unknown callee refuses it; a
/// call without the caller's certificate is refused with the callee's
/// certificate; otherwise the call is recorded in `stub` at `now`, taken,
/// and delivered (`.0`) when it is new and the caller insists or the callee
/// is not on a WAN address.
pub fn decide_relayed_call(
    stub: &mut CallStub,
    call_req: &SnCall,
    to_peer: Option<&CachedPeerInfo>,
    now: Timestamp,
) -> (r: (bool, RelayCallOutcome))
    requires
        old(stub).wf(),
    ensures
        final(stub).wf(),
        to_peer is None ==> !r.0 && !r.1.accepted && r.1.to_peer_info is None && final(stub)@
            == old(stub)@,
        to_peer matches Some(t) ==> (r.1.to_peer_info matches Some(info) && info@ == t@.desc.encoded),
        to_peer is Some && call_req.peer_info is None ==> !r.0 && !r.1.accepted && final(stub)@
            == old(stub)@,
        to_peer is Some && call_req.peer_info is Some ==> ({
            let key = (call_req.from_peer_id@, call_req.tunnel_id.0);
            &&& r.1.accepted
            &&& r.0 == (!old(stub)@.stubs.dom().contains(key) && (call_req.is_always_call
                || !to_peer.unwrap()@.is_wan))
            &&& final(stub)@ == (CallStubView {
                last_recycle: old(stub)@.last_recycle,
                stubs: old(stub)@.stubs.insert(key, now),
            })
        }),
{
    let to = match to_peer {
        Some(t) => t,
        None => {
            return (false, RelayCallOutcome { accepted: false, to_peer_info: None });
        },
    };
    let to_peer_info = Some(copy_bytes(to.desc.encoded_ref()));
    if call_req.peer_info.is_none() {
        return (false, RelayCallOutcome { accepted: false, to_peer_info });
    }
    let is_new = stub.insert(&call_req.from_peer_id, &call_req.tunnel_id, now);
    let deliver = is_new && (call_req.is_always_call || !to.is_wan);
    (deliver, RelayCallOutcome { accepted: true, to_peer_info })
}

/// The client certificate a report must carry; a report without one is denied.
pub fn report_client_cert(report: &ReportSn) -> (r: P2pResult<EncodedP2pIdentityCert>)
    ensures
        report.peer_info matches Some(c) ==> (r matches Ok(x) && x@ == c@),
        report.peer_info is None ==> r == Err::<EncodedP2pIdentityCert, P2pError>(
            P2pError { code: P2pErrorCode::PermissionDenied },
        ),
{
    match &report.peer_info {
        Some(c) => Ok(copy_bytes(c)),
        None => Err(P2pError::new(P2pErrorCode::PermissionDenied)),
    }
}

/// A report may name its sender only as the peer that authenticated.
pub fn check_report_sender(report: &ReportSn, authenticated_peer_id: &P2pId) -> (r: P2pResult<()>)
    ensures
        r is Ok <==> (match report.from_peer_id {
            Some(id) => id@ == authenticated_peer_id@,
            None => true,
        }),
        r matches Err(e) ==> e.code == P2pErrorCode::PermissionDenied,
{
    match &report.from_peer_id {
        Some(id) => {
            if id.same_as(authenticated_peer_id) {
                Ok(())
            } else {
                Err(P2pError::new(P2pErrorCode::PermissionDenied))
            }
        },
        None => Ok(()),
    }
}

/// The endpoints the SN observed a peer on that are candidates themselves,
/// classified against what the peer reported.
pub open spec fn spec_wan_classified(observed: Seq<Endpoint>, reported: Seq<Endpoint>) -> Seq<Endpoint> {
    spec_direct_candidates(observed, reported)
}

pub fn peer_wan_classified_eps(observed: &[Endpoint], reported_eps: &[Endpoint]) -> (r: Vec<Endpoint>)
    ensures
        r@ == spec_wan_classified(observed@, reported_eps@),
{
    let mut out: Vec<Endpoint> = Vec::new();
    let mut i: usize = 0;
    while i < observed.len()
        invariant
            i <= observed@.len(),
            out@ == spec_direct_candidates(observed@.subrange(0, i as int), reported_eps@),
        decreases observed.len() - i,
    {
        assert(observed@.subrange(0, i + 1).drop_last() =~= observed@.subrange(0, i as int));
        if is_direct_observed_candidate(&observed[i]) {
            let mut remote = observed[i];
            remote.set_area(EndpointArea::Wan);
            out.push(classify_observed_endpoint(remote, reported_eps));
            proof {
                assert(spec_classify_observed(remote, reported_eps@) == spec_classify_observed(
                    observed@[i as int],
                    reported_eps@,
                ));
            }
        }
        i = i + 1;
    }
    assert(observed@.subrange(0, observed@.len() as int) =~= observed@);
    out
}

/// Takes a report into the peer cache: the reported local endpoints are
/// sanitized against the tunnel the report came over, and the peer's entry
/// takes its certificate, port mappings and the sanitized endpoints at
/// `now`. Returns the sanitized endpoints.
pub fn apply_report_to_peers(
    peers: &mut PeerManager,
    authenticated_peer_id: &P2pId,
    desc: &Option<P2pIdentityCertRef>,
    map_ports: Vec<(Protocol, u16)>,
    local_eps: &[Endpoint],
    observed_tunnel: Option<&Endpoint>,
    now: Timestamp,
) -> (r: P2pResult<Vec<Endpoint>>)
    requires
        old(peers).wf(),
    ensures
        final(peers).wf(),
        local_eps@.len() > MAX_REPORTED_LOCAL_ENDPOINTS ==> r == Err::<Vec<Endpoint>, P2pError>(
            P2pError { code: P2pErrorCode::OutOfLimit },
        ) && final(peers)@ == old(peers)@,
        local_eps@.len() <= MAX_REPORTED_LOCAL_ENDPOINTS ==> ({
            let reported = spec_sanitize(
                local_eps@,
                match observed_tunnel {
                    Some(t) => Some(t.addr.ip),
                    None => None,
                },
            );
            &&& r matches Ok(v) && v@ == reported
            &&& final(peers)@ == spec_add_or_update(
                old(peers)@,
                authenticated_peer_id@,
                match desc {
                    Some(d) => Some(d@),
                    None => None,
                },
                map_ports@,
                reported,
                now,
            )
        }),
{
    let reported = match sanitize_reported_endpoints(local_eps, observed_tunnel) {
        Ok(v) => v,
        Err(e) => {
            return Err(e);
        },
    };
    peers.add_or_update_peer(authenticated_peer_id, desc, map_ports, &reported, now);
    Ok(reported)
}

/// The context a report's client is validated under, given the parse of the
/// certificate the report carries (ignored when it carries none). It exists
/// only for a report with a certificate that parsed to the authenticated
/// peer's identity, so the validator is never shown any other client.
pub fn report_validate_context(
    report: &ReportSn,
    authenticated_peer_id: &P2pId,
    parsed_cert: &P2pResult<P2pIdentityCertRef>,
) -> (r: P2pResult<SnConnectionValidateContext>)
    ensures
        report.peer_info is None ==> r == Err::<SnConnectionValidateContext, P2pError>(
            P2pError { code: P2pErrorCode::PermissionDenied },
        ),
        report.peer_info matches Some(c) ==> match *parsed_cert {
            Err(e) => r == Err::<SnConnectionValidateContext, P2pError>(e),
            Ok(cert) => {
                &&& cert@.id != authenticated_peer_id@ ==> r == Err::<
                    SnConnectionValidateContext,
                    P2pError,
                >(P2pError { code: P2pErrorCode::PermissionDenied })
                &&& cert@.id == authenticated_peer_id@ ==> (r matches Ok(ctx) && ctx.client_id@
                    == authenticated_peer_id@ && ctx.client_cert@ == c@)
            },
        },
{
    let cert = match report_client_cert(report) {
        Ok(c) => c,
        Err(e) => {
            return Err(e);
        },
    };
    let cert_id = match parsed_cert {
        Ok(parsed) => Ok(parsed.get_id()),
        Err(e) => Err(*e),
    };
    validate_context_from_cert(authenticated_peer_id, cert_id, cert)
}

/// Why a report is refused, if it is: it carries no certificate, its
/// certificate does not parse or names another peer than the authenticated
/// one, the validator fails or rejects the client, or the report names
/// another sender. Rejections are `PermissionDenied`; a failing parse or
/// validator gives its own error.
pub open spec fn spec_report_refusal(
    report: ReportSn,
    authenticated_peer_id: Seq<u8>,
    parsed_cert: P2pResult<P2pIdentityCertRef>,
    verdict: P2pResult<ValidateResult>,
) -> Option<P2pError> {
    let denied = P2pError { code: P2pErrorCode::PermissionDenied };
    if report.peer_info is None {
        Some(denied)
    } else if parsed_cert is Err {
        Some(parsed_cert->Err_0)
    } else if parsed_cert->Ok_0@.id != authenticated_peer_id {
        Some(denied)
    } else if verdict is Err {
        Some(verdict->Err_0)
    } else if verdict matches Ok(ValidateResult::Reject(_)) {
        Some(denied)
    } else if report.from_peer_id matches Some(id) && id@ != authenticated_peer_id {
        Some(denied)
    } else {
        None
    }
}

/// Admits a report into the peer cache. `parsed_cert` is the parse of the
/// certificate the report carries, and `verdict` the validator's answer for
/// the context `report_validate_context` gives (it is not looked at when
/// there is no such context). A refused report leaves the cache as it was
/// and is answered with the refusal; an admitted one is taken into the cache
/// as `apply_report_to_peers` says, under the parsed certificate.
pub fn admit_report(
    peers: &mut PeerManager,
    report: &ReportSn,
    authenticated_peer_id: &P2pId,
    parsed_cert: P2pResult<P2pIdentityCertRef>,
    verdict: P2pResult<ValidateResult>,
    observed_tunnel: Option<&Endpoint>,
    now: Timestamp,
) -> (r: P2pResult<Vec<Endpoint>>)
    requires
        old(peers).wf(),
    ensures
        final(peers).wf(),
        spec_report_refusal(*report, authenticated_peer_id@, parsed_cert, verdict) matches Some(e)
            ==> r == Err::<Vec<Endpoint>, P2pError>(e) && final(peers)@ == old(peers)@,
        spec_report_refusal(*report, authenticated_peer_id@, parsed_cert, verdict) is None ==> ({
            let cert = parsed_cert->Ok_0;
            &&& report.local_eps@.len() > MAX_REPORTED_LOCAL_ENDPOINTS ==> r == Err::<
                Vec<Endpoint>,
                P2pError,
            >(P2pError { code: P2pErrorCode::OutOfLimit }) && final(peers)@ == old(peers)@
            &&& report.local_eps@.len() <= MAX_REPORTED_LOCAL_ENDPOINTS ==> ({
                let reported = spec_sanitize(
                    report.local_eps@,
                    match observed_tunnel {
                        Some(t) => Some(t.addr.ip),
                        None => None,
                    },
                );
                &&& r matches Ok(v) && v@ == reported
                &&& final(peers)@ == spec_add_or_update(
                    old(peers)@,
                    authenticated_peer_id@,
                    Some(cert@),
                    report.map_ports@,
                    reported,
                    now,
                )
            })
        }),
{
    if let Err(e) = report_validate_context(report, authenticated_peer_id, &parsed_cert) {
        return Err(e);
    }
    if let Err(e) = connection_verdict(verdict) {
        return Err(e);
    }
    if let Err(e) = check_report_sender(report, authenticated_peer_id) {
        return Err(e);
    }
    let cert = match parsed_cert {
        Ok(c) => c,
        Err(e) => {
            return Err(e);
        },
    };
    let desc = Some(cert);
    apply_report_to_peers(
        peers,
        authenticated_peer_id,
        &desc,
        copy_vec(&report.map_ports),
        report.local_eps.as_slice(),
        observed_tunnel,
        now,
    )
}

/// The scheduler after it takes the SN identity `id`.
pub open spec fn spec_with_sn_peer_id(v: NatProbeSchedulerView, id: Seq<u8>) -> NatProbeSchedulerView {
    if v.sn_peer_id == id {
        v
    } else {
        NatProbeSchedulerView { sn_peer_id: id, peers: Map::empty(), ..v }
    }
}

/// Finishes a report: when the tunnel it came over is known the NAT-probe
/// scheduler observes it (under this SN's identity), and the answer carries
/// the SN's certificate, the endpoints it observed the peer on, its probe
/// ports and any probe directive. Returns the answer and the profile update
/// the observation asks for.
pub fn finish_report(
    scheduler: &mut NatProbeScheduler,
    local_id: &P2pId,
    authenticated_peer_id: &P2pId,
    tunnel_id: CmdTunnelId,
    observed_tunnel: Option<Endpoint>,
    report_seq: Sequence,
    control_version: Option<u8>,
    probe_result: Option<NatProbeResult>,
    local_cert: EncodedP2pIdentityCert,
    remote_ep: Vec<Endpoint>,
    now: Timestamp,
) -> (r: (ReportSnResp, Option<Option<NatProfile>>))
    requires
        old(scheduler).wf(),
    ensures
        final(scheduler).wf(),
        r.0.seq == report_seq,
        r.0.sn_peer_id@ == local_id@,
        r.0.result == spec_error_code_value(P2pErrorCode::Success),
        r.0.peer_info matches Some(c) && c@ == local_cert@,
        r.0.end_point_array@ == remote_ep@,
        r.0.receipt is None,
        r.0.nat_probe_ports@ == final(scheduler)@.ports,
        observed_tunnel is None ==> final(scheduler)@ == old(scheduler)@ && r.0.nat_probe_directive
            is None && r.1 is None,
        observed_tunnel matches Some(t) ==> ({
            let (v, tr) = spec_observe_capable_report(
                spec_with_sn_peer_id(old(scheduler)@, local_id@),
                authenticated_peer_id@,
                tunnel_id,
                t,
                control_version,
                match probe_result {
                    Some(res) => Some(res@),
                    None => None,
                },
                now,
            );
            &&& final(scheduler)@ == v
            &&& tr.directive == (match r.0.nat_probe_directive {
                Some(d) => Some(d@),
                None => None,
            })
            &&& r.1 == tr.profile_update
        }),
{
    let mut directive: Option<NatProbeDirective> = None;
    let mut profile_update: Option<Option<NatProfile>> = None;
    if let Some(t) = observed_tunnel {
        scheduler.set_sn_peer_id(local_id);
        let transition = scheduler.observe_capable_report(
            authenticated_peer_id,
            tunnel_id,
            t,
            control_version,
            probe_result,
            now,
        );
        directive = transition.directive;
        profile_update = transition.profile_update;
    }
    let ports = copy_vec_u16(scheduler.ports());
    (
        ReportSnResp {
            seq: report_seq,
            sn_peer_id: local_id.duplicate(),
            result: P2pErrorCode::Success.value(),
            peer_info: Some(local_cert),
            end_point_array: remote_ep,
            receipt: None,
            nat_probe_ports: ports,
            nat_probe_directive: directive,
        },
        profile_update,
    )
}

fn copy_vec_u16(s: &[u16]) -> (r: Vec<u16>)
    ensures
        r@ == s@,
{
    let mut out: Vec<u16> = Vec::new();
    let mut i: usize = 0;
    while i < s.len()
        invariant
            i <= s@.len(),
            out@ == s@.subrange(0, i as int),
        decreases s.len() - i,
    {
        out.push(s[i]);
        i = i + 1;
        assert(out@ =~= s@.subrange(0, i as int));
    }
    assert(s@.subrange(0, s@.len() as int) =~= s@);
    out
}

/// The answer to a relayed call once a serving SN took it.
pub fn relay_answer(call_seq: Sequence, local_sn_id: &P2pId, outcome: RelayCallOutcome) -> (r: Option<
    SnCallResp,
>)
    ensures
        !outcome.accepted ==> r is None,
        outcome.accepted ==> (r matches Some(resp) && resp.seq == call_seq && resp.sn_peer_id@
            == local_sn_id@ && resp.result == spec_error_code_value(P2pErrorCode::Success)
            && resp.to_peer_info == outcome.to_peer_info),
{
    if outcome.accepted {
        Some(
            SnCallResp {
                seq: call_seq,
                sn_peer_id: local_sn_id.duplicate(),
                result: P2pErrorCode::Success.value(),
                to_peer_info: outcome.to_peer_info,
            },
        )
    } else {
        None
    }
}

/// What the SN serving a peer reports about it.
pub struct ServingPeerDetail {
    pub peer_info: EncodedP2pIdentityCert,
    pub endpoints: Vec<Endpoint>,
    pub net_profile: Option<NatProfile>,
    pub target_protocol_version: Option<u8>,
}

/// What this SN reports about a peer it serves, from the peer's cache entry,
/// its current NAT profile and the protocol version it speaks: its
/// certificate and its announced and reported endpoints without duplicates.
/// A peer not cached here has no detail.
pub fn local_peer_detail(
    peer: Option<&CachedPeerInfo>,
    net_profile: Option<NatProfile>,
    target_protocol_version: Option<u8>,
) -> (r: Option<ServingPeerDetail>)
    ensures
        peer is None ==> r is None,
        peer matches Some(p) ==> (r matches Some(d) && d.peer_info@ == p@.desc.encoded && d.endpoints@
            == spec_extend_unique(Seq::empty(), spec_extend_unique(p@.desc.endpoints, p@.local_eps))
            && d.net_profile == net_profile && d.target_protocol_version == target_protocol_version),
{
    let p = match peer {
        Some(p) => p,
        None => {
            return None;
        },
    };
    let mut endpoints = reported_endpoints_for_peer(p);
    dedup_endpoints(&mut endpoints);
    match p.desc.get_encoded_cert() {
        Ok(peer_info) => Some(ServingPeerDetail { peer_info, endpoints, net_profile, target_protocol_version }),
        Err(_) => None,
    }
}

/// What came of asking the SN behind one lease of a peer.
pub enum LeaseDetail {
    /// The lease is this SN's own; it is not asked.
    OwnLease,
    /// The SN could not be asked, did not know the peer, or failed.
    Unavailable,
    /// The SN answered with the peer's detail.
    Found(ServingPeerDetail),
}

/// The details gathered from the SNs serving a peer, and the protocol
/// version they all agree the peer speaks, if they do.
pub struct RemotePeerDetails {
    pub details: Vec<ServingPeerDetail>,
    pub target_protocol_version: Option<u8>,
}

/// The details found, in lease order.
pub open spec fn spec_found_details(outcomes: Seq<LeaseDetail>) -> Seq<ServingPeerDetail>
    decreases outcomes.len(),
{
    if outcomes.len() == 0 {
        Seq::empty()
    } else {
        let prev = spec_found_details(outcomes.drop_last());
        match outcomes.last() {
            LeaseDetail::Found(d) => prev.push(d),
            _ => prev,
        }
    }
}

/// The version reported at a lease, if its SN answered with one.
pub open spec fn spec_lease_version(o: LeaseDetail) -> Option<u8> {
    match o {
        LeaseDetail::Found(d) => d.target_protocol_version,
        _ => None,
    }
}

/// The agreed version: there are leases, every one answered with a version,
/// and all versions are the same.
pub open spec fn spec_agreed_version(outcomes: Seq<LeaseDetail>) -> Option<u8> {
    if outcomes.len() > 0 && (forall|i: int| 0 <= i < outcomes.len() ==> (#[trigger] spec_lease_version(outcomes[i])) is Some)
        && (forall|i: int| 0 <= i < outcomes.len() ==> #[trigger] spec_lease_version(outcomes[i]) == spec_lease_version(outcomes[0])) {
        spec_lease_version(outcomes[0])
    } else {
        None
    }
}

/// Gathers the answers of the SNs behind a peer's leases.
pub fn collect_remote_details(outcomes: Vec<LeaseDetail>) -> (r: RemotePeerDetails)
    ensures
        r.details@ == spec_found_details(outcomes@),
        r.target_protocol_version == spec_agreed_version(outcomes@),
{
    let ghost all = outcomes@;
    let mut details: Vec<ServingPeerDetail> = Vec::new();
    let mut target: Option<u8> = None;
    let mut complete = outcomes.len() > 0;
    let mut rest = outcomes;
    let mut i: usize = 0;
    let n = rest.len();
    while i < n
        invariant
            n == all.len(),
            i <= n,
            rest@ == all.subrange(i as int, n as int),
            details@ == spec_found_details(all.subrange(0, i as int)),
            complete ==> n > 0 && forall|j: int| 0 <= j < i ==> (#[trigger] spec_lease_version(all[j])) is Some
                && spec_lease_version(all[j]) == spec_lease_version(all[0]),
            !complete ==> n == 0 || exists|j: int| 0 <= j < i && ((#[trigger] spec_lease_version(all[j])) is None
                || spec_lease_version(all[j]) != spec_lease_version(all[0])),
            i > 0 && complete ==> target == spec_lease_version(all[0]),
            i == 0 ==> target is None,
            i > 0 && target is None ==> !complete,
        decreases n - i,
    {
        assert(all.subrange(0, i + 1).drop_last() =~= all.subrange(0, i as int));
        let item = rest.remove(0);
        assert(rest@ =~= all.subrange(i + 1, n as int));
        match item {
            LeaseDetail::Found(d) => {
                match d.target_protocol_version {
                    Some(version) => {
                        match target {
                            Some(expected) => {
                                if expected != version {
                                    complete = false;
                                }
                            },
                            None => {
                                target = Some(version);
                            },
                        }
                    },
                    None => {
                        complete = false;
                    },
                }
                details.push(d);
            },
            _ => {
                complete = false;
            },
        }
        i = i + 1;
    }
    assert(all.subrange(0, n as int) =~= all);
    if !complete {
        target = None;
    }
    RemotePeerDetails { details, target_protocol_version: target }
}

/// `s` extended, detail by detail, with each detail's endpoints.
pub open spec fn spec_extend_with_details(s: Seq<Endpoint>, ds: Seq<ServingPeerDetail>) -> Seq<Endpoint>
    decreases ds.len(),
{
    if ds.len() == 0 {
        s
    } else {
        spec_extend_unique(spec_extend_with_details(s, ds.drop_last()), ds.last().endpoints@)
    }
}

/// Merging the serving SNs' details loses nothing: every endpoint listed
/// before, and every endpoint of every detail, is in the merged list.
pub proof fn lemma_details_endpoints_all_listed(
    s: Seq<Endpoint>,
    ds: Seq<ServingPeerDetail>,
    e: Endpoint,
)
    requires
        spec_contains_endpoint(s, e) || exists|i: int, j: int|
            0 <= i < ds.len() && 0 <= j < ds[i].endpoints@.len() && #[trigger] ds[i].endpoints@[j] == e,
    ensures
        spec_contains_endpoint(spec_extend_with_details(s, ds), e),
    decreases ds.len(),
{
    if ds.len() > 0 {
        let init = ds.drop_last();
        let last = ds.last().endpoints@;
        let prev = spec_extend_with_details(s, init);
        let in_last = exists|j: int| 0 <= j < last.len() && last[j] == e;
        if in_last {
            let j = choose|j: int| 0 <= j < last.len() && last[j] == e;
            assert(spec_same_endpoint(last[j], e));
            lemma_extend_unique_covers(prev, last, e);
        } else {
            if !spec_contains_endpoint(s, e) {
                let (i, j) = choose|i: int, j: int|
                    0 <= i < ds.len() && 0 <= j < ds[i].endpoints@.len() && #[trigger] ds[i].endpoints@[j] == e;
                assert(i < ds.len() - 1);
                assert(init[i] == ds[i]);
                assert(init[i].endpoints@[j] == e);
            }
            lemma_details_endpoints_all_listed(s, init, e);
            lemma_extend_unique_covers(prev, last, e);
        }
    }
}

fn extend_with_details(eps: &mut Vec<Endpoint>, details: &Vec<ServingPeerDetail>)
    ensures
        final(eps)@ == spec_extend_with_details(old(eps)@, details@),
{
    let ghost start = eps@;
    let mut i: usize = 0;
    while i < details.len()
        invariant
            i <= details@.len(),
            eps@ == spec_extend_with_details(start, details@.subrange(0, i as int)),
        decreases details.len() - i,
    {
        assert(details@.subrange(0, i + 1).drop_last() =~= details@.subrange(0, i as int));
        extend_unique_endpoints(eps, details[i].endpoints.as_slice());
        i = i + 1;
    }
    assert(details@.subrange(0, details@.len() as int) =~= details@);
}

/// The answer to a query for a peer. A peer cached here is answered with
/// its certificate, the candidates from the endpoints the SN observed it on,
/// its local endpoints and those other serving SNs know, the published
/// profile `local_net_profile` and `local_target_version`. A peer only other
/// SNs serve is answered from their details; an unknown peer with nothing.
pub fn query_answer(
    query_seq: Sequence,
    device_info: Option<&CachedPeerInfo>,
    observed_eps: &[Endpoint],
    local_net_profile: Option<NatProfile>,
    local_target_version: Option<u8>,
    remote: RemotePeerDetails,
) -> (r: SnQueryResp)
    ensures
        r.seq == query_seq,
        device_info matches Some(d) ==> ({
            &&& r.peer_info matches Some(c) && c@ == d@.desc.encoded
            &&& r.end_point_array@ == spec_extend_with_details(
                spec_extend_unique(
                    spec_observed_candidates(
                        observed_eps@,
                        d@.map_ports,
                        spec_extend_unique(d@.desc.endpoints, d@.local_eps),
                    ),
                    d@.local_eps,
                ),
                remote.details@,
            )
            &&& r.net_profile == local_net_profile
            &&& r.target_protocol_version == local_target_version
        }),
        device_info is None && remote.details@.len() > 0 ==> ({
            &&& r.peer_info == Some(remote.details@[0].peer_info)
            &&& r.end_point_array@ == spec_extend_with_details(Seq::empty(), remote.details@)
            &&& r.net_profile == remote.details@[0].net_profile
            &&& r.target_protocol_version == remote.target_protocol_version
        }),
        device_info is None && remote.details@.len() == 0 ==> r.peer_info is None
            && r.end_point_array@.len() == 0 && r.net_profile is None && r.target_protocol_version is None,
{
    match device_info {
        Some(d) => {
            let reported_eps = reported_endpoints_for_peer(d);
            let mut end_point_array = observed_endpoint_candidates(
                observed_eps,
                d.map_ports.as_slice(),
                reported_eps.as_slice(),
            );
            extend_unique_endpoints(&mut end_point_array, d.local_eps.as_slice());
            extend_with_details(&mut end_point_array, &remote.details);
            SnQueryResp {
                seq: query_seq,
                peer_info: Some(copy_bytes(d.desc.encoded_ref())),
                end_point_array,
                net_profile: local_net_profile,
                target_protocol_version: local_target_version,
            }
        },
        None => {
            if remote.details.len() > 0 {
                let mut end_point_array: Vec<Endpoint> = Vec::new();
                extend_with_details(&mut end_point_array, &remote.details);
                let RemotePeerDetails { details, target_protocol_version } = remote;
                let mut details = details;
                let first = details.remove(0);
                SnQueryResp {
                    seq: query_seq,
                    peer_info: Some(first.peer_info),
                    end_point_array,
                    net_profile: first.net_profile,
                    target_protocol_version,
                }
            } else {
                SnQueryResp {
                    seq: query_seq,
                    peer_info: None,
                    end_point_array: Vec::new(),
                    net_profile: None,
                    target_protocol_version: None,
                }
            }
        },
    }
}

} // verus!

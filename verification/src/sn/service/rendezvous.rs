use vstd::prelude::*;
use crate::endpoint::{spec_is_loopback, Endpoint, IpAddr};
use crate::error::{P2pError, P2pErrorCode, P2pResult};
use crate::sn::protocol::sn::{
    SnTunnelRendezvous, SnTunnelRendezvousNotify, SnTunnelRendezvousResp,
    SnTunnelRendezvousRespView, SN_TUNNEL_RENDEZVOUS_CMD_VERSION, SN_TUNNEL_RENDEZVOUS_RESULT_FAILED,
};
use crate::sn::service::endpoints::{push_unique_endpoint, spec_push_unique};
use crate::sn::service::rendezvous_state::{
    spec_cache_response, spec_fail_unanswered, RendezvousBegin, RendezvousState,
    RendezvousStateView,
};
use crate::types::{copy_bytes, copy_vec, EncodedP2pIdentityCert, P2pId, Sequence, Timestamp};

verus! {

/// The distinct endpoints a peer's tunnels are seen on, in tunnel order,
/// loopback ones left out.
pub open spec fn spec_observed_remotes(remotes: Seq<Endpoint>) -> Seq<Endpoint>
    decreases remotes.len(),
{
    if remotes.len() == 0 {
        Seq::empty()
    } else {
        let prev = spec_observed_remotes(remotes.drop_last());
        if spec_is_loopback(remotes.last().addr) {
            prev
        } else {
            spec_push_unique(prev, remotes.last())
        }
    }
}

/// The endpoints a peer is observed on, from the remote ends of its tunnels.
pub fn observed_remotes(remotes: &[Endpoint]) -> (r: Vec<Endpoint>)
    ensures
        r@ == spec_observed_remotes(remotes@),
{
    let mut out: Vec<Endpoint> = Vec::new();
    let mut i: usize = 0;
    while i < remotes.len()
        invariant
            i <= remotes@.len(),
            out@ == spec_observed_remotes(remotes@.subrange(0, i as int)),
        decreases remotes.len() - i,
    {
        let remote = remotes[i];
        assert(remotes@.subrange(0, i + 1).drop_last() =~= remotes@.subrange(0, i as int));
        if !remote.is_loopback() {
            push_unique_endpoint(&mut out, remote);
        }
        i = i + 1;
    }
    assert(remotes@.subrange(0, remotes@.len() as int) =~= remotes@);
    out
}

/// Endpoints offered for a rendezvous belong to the peer when there are
/// none, or when the tunnel the request came over is known and every
/// endpoint is on that tunnel's IP address.
pub open spec fn spec_endpoints_owned_by(endpoints: Seq<Endpoint>, observed_tunnel: Option<Endpoint>) -> bool {
    endpoints.len() == 0 || (observed_tunnel matches Some(t) && forall|i: int|
        0 <= i < endpoints.len() ==> (#[trigger] endpoints[i]).addr.ip == t.addr.ip)
}

pub fn rendezvous_endpoints_owned_by(endpoints: &[Endpoint], observed_tunnel: Option<Endpoint>) -> (r: bool)
    ensures
        r == spec_endpoints_owned_by(endpoints@, observed_tunnel),
{
    if endpoints.len() == 0 {
        return true;
    }
    let t = match observed_tunnel {
        Some(t) => t,
        None => {
            return false;
        },
    };
    let ip: IpAddr = t.addr.ip;
    let mut i: usize = 0;
    while i < endpoints.len()
        invariant
            i <= endpoints@.len(),
            endpoints@.len() > 0,
            observed_tunnel == Some(t),
            ip == t.addr.ip,
            forall|k: int| 0 <= k < i ==> (#[trigger] endpoints@[k]).addr.ip == ip,
        decreases endpoints.len() - i,
    {
        if endpoints[i].addr.ip != ip {
            assert(endpoints@[i as int].addr.ip != t.addr.ip);
            return false;
        }
        i = i + 1;
    }
    true
}

/// Every predicted endpoint of a response is on an IP address the target
/// was observed on; a response without predictions needs nothing.
pub open spec fn spec_response_owned(preds: Seq<Endpoint>, observed: Seq<Endpoint>) -> bool {
    preds.len() == 0 || (observed.len() > 0 && forall|i: int|
        0 <= i < preds.len() ==> spec_ip_observed(observed, (#[trigger] preds[i]).addr.ip))
}

/// Some endpoint of `observed` is on `ip`.
pub open spec fn spec_ip_observed(observed: Seq<Endpoint>, ip: IpAddr) -> bool {
    exists|j: int| 0 <= j < observed.len() && (#[trigger] observed[j]).addr.ip == ip
}

fn ip_observed(observed: &[Endpoint], ip: IpAddr) -> (r: bool)
    ensures
        r == spec_ip_observed(observed@, ip),
{
    let mut j: usize = 0;
    while j < observed.len()
        invariant
            j <= observed@.len(),
            forall|k: int| 0 <= k < j ==> (#[trigger] observed@[k]).addr.ip != ip,
        decreases observed.len() - j,
    {
        if observed[j].addr.ip == ip {
            return true;
        }
        j = j + 1;
    }
    false
}

/// A response of the rendezvous target may only predict endpoints on
/// addresses the SN observed the target on; otherwise it is refused.
pub fn validate_rendezvous_response_owner(response: &SnTunnelRendezvousResp, observed: &[Endpoint]) -> (r:
    P2pResult<()>)
    ensures
        spec_response_owned(response.predicted_endpoint_array@, observed@) ==> r is Ok,
        !spec_response_owned(response.predicted_endpoint_array@, observed@) ==> r == Err::<(), P2pError>(
            P2pError { code: P2pErrorCode::PermissionDenied },
        ),
{
    let preds = &response.predicted_endpoint_array;
    if preds.len() == 0 {
        return Ok(());
    }
    if observed.len() == 0 {
        return Err(P2pError::new(P2pErrorCode::PermissionDenied));
    }
    let mut i: usize = 0;
    while i < preds.len()
        invariant
            i <= preds@.len(),
            preds@ == response.predicted_endpoint_array@,
            preds@.len() > 0,
            observed@.len() > 0,
            forall|k: int| 0 <= k < i ==> spec_ip_observed(observed@, (#[trigger] preds@[k]).addr.ip),
        decreases preds.len() - i,
    {
        if !ip_observed(observed, preds[i].addr.ip) {
            assert(!spec_ip_observed(observed@, preds@[i as int].addr.ip));
            return Err(P2pError::new(P2pErrorCode::PermissionDenied));
        }
        i = i + 1;
    }
    Ok(())
}

/// A response the target sent for `notify`: it must answer this notify and
/// predict only endpoints the target was observed on.
pub fn accept_rendezvous_response(
    response: SnTunnelRendezvousResp,
    notify: &SnTunnelRendezvousNotify,
    observed: &[Endpoint],
) -> (r: P2pResult<SnTunnelRendezvousResp>)
    ensures
        response.spec_validate(notify.seq, notify.need_predict_endpoint) matches Err(e) ==> r
            == Err::<SnTunnelRendezvousResp, P2pError>(e),
        response.spec_validate(notify.seq, notify.need_predict_endpoint) is Ok ==> ({
            &&& spec_response_owned(response.predicted_endpoint_array@, observed@) ==> r
                == Ok::<SnTunnelRendezvousResp, P2pError>(response)
            &&& !spec_response_owned(response.predicted_endpoint_array@, observed@) ==> r
                == Err::<SnTunnelRendezvousResp, P2pError>(
                P2pError { code: P2pErrorCode::PermissionDenied },
            )
        }),
{
    match response.validate(notify.seq, notify.need_predict_endpoint) {
        Err(e) => {
            return Err(e);
        },
        Ok(()) => {},
    }
    match validate_rendezvous_response_owner(&response, observed) {
        Err(e) => Err(e),
        Ok(()) => Ok(response),
    }
}

/// A rendezvous command is handled only under its own command version.
pub fn check_rendezvous_cmd_version(version: u8) -> (r: P2pResult<()>)
    ensures
        version == SN_TUNNEL_RENDEZVOUS_CMD_VERSION ==> r is Ok,
        version != SN_TUNNEL_RENDEZVOUS_CMD_VERSION ==> r == Err::<(), P2pError>(
            P2pError { code: P2pErrorCode::InvalidParam },
        ),
{
    if version != SN_TUNNEL_RENDEZVOUS_CMD_VERSION {
        return Err(P2pError::new(P2pErrorCode::InvalidParam));
    }
    Ok(())
}

/// A rendezvous request is taken up only when it is valid and its sender
/// does not name itself as the target.
pub fn rendezvous_request_admissible(request: &SnTunnelRendezvous, client_id: &P2pId) -> (r: bool)
    ensures
        r == (request.spec_validate() is Ok && client_id@ != request.to_peer_id@),
{
    if request.validate().is_err() {
        return false;
    }
    !client_id.same_as(&request.to_peer_id)
}

/// The notification a target is sent for `request`, carrying the
/// initiator's certificate; it validates exactly when the request does.
pub fn build_rendezvous_notify(request: &SnTunnelRendezvous, client_cert: &EncodedP2pIdentityCert) -> (r:
    SnTunnelRendezvousNotify)
    ensures
        r.seq == request.seq,
        r.tunnel_id == request.tunnel_id,
        r.peer_info@ == client_cert@,
        r.operation == request.operation,
        r.end_point_array@ == request.end_point_array@,
        r.need_predict_endpoint == request.need_predict_endpoint,
        r.spec_validate() == request.spec_validate(),
{
    SnTunnelRendezvousNotify {
        seq: request.seq,
        tunnel_id: request.tunnel_id,
        peer_info: copy_bytes(client_cert),
        operation: request.operation,
        end_point_array: copy_vec(&request.end_point_array),
        need_predict_endpoint: request.need_predict_endpoint,
    }
}

/// The failure answer for the rendezvous request with sequence `seq`.
pub open spec fn spec_failure(seq: Sequence) -> SnTunnelRendezvousRespView {
    SnTunnelRendezvousRespView {
        seq,
        result: SN_TUNNEL_RENDEZVOUS_RESULT_FAILED,
        predicted_endpoint_array: Seq::empty(),
    }
}

/// What to do with a rendezvous request once its attempt was looked up.
pub enum RendezvousStep {
    /// Answer the request with this response.
    Reply(SnTunnelRendezvousResp),
    /// Wait for the answer of the attempt already running.
    Wait,
    /// Run the attempt: notify the target and await its answer.
    Run,
}

/// The step for a request from what `RendezvousState::begin` answered: a
/// cached answer is repeated, a running attempt is waited for, a new one is
/// run, and a refused request is answered with a failure.
pub fn rendezvous_step(begin: P2pResult<RendezvousBegin>, seq: Sequence) -> (r: RendezvousStep)
    ensures
        begin matches Ok(RendezvousBegin::Cached(resp)) ==> r == RendezvousStep::Reply(resp),
        begin matches Ok(RendezvousBegin::InFlight) ==> r is Wait,
        begin matches Ok(RendezvousBegin::New) ==> r is Run,
        begin is Err ==> (r matches RendezvousStep::Reply(f) && f@ == spec_failure(seq)),
{
    match begin {
        Ok(RendezvousBegin::Cached(resp)) => RendezvousStep::Reply(resp),
        Ok(RendezvousBegin::InFlight) => RendezvousStep::Wait,
        Ok(RendezvousBegin::New) => RendezvousStep::Run,
        Err(_) => RendezvousStep::Reply(SnTunnelRendezvousResp::failure(seq)),
    }
}

/// What a request that waited on a running attempt is answered: the
/// attempt's response when one came (`None`: the wait ended without one),
/// else a failure.
pub fn inflight_rendezvous_answer(outcome: Option<P2pResult<SnTunnelRendezvousResp>>, seq: Sequence) -> (r:
    SnTunnelRendezvousResp)
    ensures
        outcome matches Some(Ok(resp)) ==> r == resp,
        !(outcome matches Some(Ok(_))) ==> r@ == spec_failure(seq),
{
    match outcome {
        Some(Ok(resp)) => resp,
        _ => SnTunnelRendezvousResp::failure(seq),
    }
}

/// The state and the waiters' answer after the attempt of `request` failed
/// (no response, or one that could not be cached): an unanswered attempt is
/// dropped and its waiters told it failed.
pub open spec fn spec_fail_attempt(v: RendezvousStateView, initiator: Seq<u8>, request: SnTunnelRendezvous) -> (
    RendezvousStateView,
    Option<P2pResult<SnTunnelRendezvousRespView>>,
) {
    let (v1, dropped) = spec_fail_unanswered(v, initiator, request@);
    (v1, if dropped { Some(Err(P2pError { code: P2pErrorCode::NetworkError })) } else { None })
}

/// Finishes the attempt the caller ran for `request`, given what came of
/// notifying the target (`None`: it did not answer in time). Returns the
/// answer to the request, and what the requests waiting on the attempt are
/// to be told (`None`: nothing, they stay with the attempt). A response that
/// is cached answers everyone; a late one finds the attempt expired; any
/// other outcome fails the attempt.
pub fn finish_rendezvous(
    state: &mut RendezvousState,
    authenticated_initiator: &P2pId,
    request: &SnTunnelRendezvous,
    outcome: Option<P2pResult<SnTunnelRendezvousResp>>,
    now: Timestamp,
) -> (r: (SnTunnelRendezvousResp, Option<P2pResult<SnTunnelRendezvousResp>>))
    requires
        old(state).wf(),
    ensures
        final(state).wf(),
        ({
            let v = old(state)@;
            let init = authenticated_initiator@;
            let waiters = match r.1 {
                Some(Ok(x)) => Some(Ok(x@)),
                Some(Err(e)) => Some(Err(e)),
                None => None,
            };
            match outcome {
                Some(Ok(resp)) => {
                    let (v1, c) = spec_cache_response(v, init, *request, resp, now);
                    match c {
                        Ok(_) => final(state)@ == v1 && r.0 == resp && waiters == Some(
                            Ok::<SnTunnelRendezvousRespView, P2pError>(resp@),
                        ),
                        Err(e) => r.0@ == spec_failure(request.seq) && if e.code == P2pErrorCode::Expired {
                            final(state)@ == v1 && waiters == Some(
                                Err::<SnTunnelRendezvousRespView, P2pError>(e),
                            )
                        } else {
                            (final(state)@, waiters) == spec_fail_attempt(v1, init, *request)
                        },
                    }
                },
                _ => r.0@ == spec_failure(request.seq) && (final(state)@, waiters) == spec_fail_attempt(
                    v,
                    init,
                    *request,
                ),
            }
        }),
{
    match outcome {
        Some(Ok(resp)) => {
            match state.cache_response(authenticated_initiator, request, &resp, now) {
                Ok(()) => {
                    let waiters = resp.duplicate();
                    (resp, Some(Ok(waiters)))
                },
                Err(e) => {
                    if e.code == P2pErrorCode::Expired {
                        (SnTunnelRendezvousResp::failure(request.seq), Some(Err(e)))
                    } else {
                        let dropped = state.fail_unanswered(authenticated_initiator, request);
                        let waiters = if dropped {
                            Some(Err(P2pError::new(P2pErrorCode::NetworkError)))
                        } else {
                            None
                        };
                        (SnTunnelRendezvousResp::failure(request.seq), waiters)
                    }
                },
            }
        },
        _ => {
            let dropped = state.fail_unanswered(authenticated_initiator, request);
            let waiters = if dropped {
                Some(Err(P2pError::new(P2pErrorCode::NetworkError)))
            } else {
                None
            };
            (SnTunnelRendezvousResp::failure(request.seq), waiters)
        },
    }
}

/// What one serving SN's answer to a relayed rendezvous means: a response
/// ends the relay once it answers the notify (an invalid one ends it with
/// the validation error); a `NotFound` or any other error moves on to the
/// next serving SN (`None`).
pub fn relay_rendezvous_outcome(
    notify: &SnTunnelRendezvousNotify,
    answer: P2pResult<SnTunnelRendezvousResp>,
) -> (r: Option<P2pResult<SnTunnelRendezvousResp>>)
    ensures
        answer is Err ==> r is None,
        answer matches Ok(resp) ==> (match resp.spec_validate(notify.seq, notify.need_predict_endpoint) {
            Ok(_) => r == Some(Ok::<SnTunnelRendezvousResp, P2pError>(resp)),
            Err(e) => r == Some(Err::<SnTunnelRendezvousResp, P2pError>(e)),
        }),
{
    match answer {
        Ok(resp) => match resp.validate(notify.seq, notify.need_predict_endpoint) {
            Ok(()) => Some(Ok(resp)),
            Err(e) => Some(Err(e)),
        },
        Err(_) => None,
    }
}

} // verus!

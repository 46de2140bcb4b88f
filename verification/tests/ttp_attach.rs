use p2p_frame::error::{P2pError, P2pErrorCode};
use p2p_frame::ttp::attach::{
    attach_step, first_attach_stage, AttachStage, AttachStep, AttachedTunnels,
};

#[test]
fn attach_runs_the_three_listeners_in_order() {
    let stage = first_attach_stage();
    assert_eq!(stage, AttachStage::Stream);
    assert_eq!(
        attach_step(AttachStage::Stream, &Ok(())),
        AttachStep::Listen(AttachStage::ControlStream)
    );
    assert_eq!(
        attach_step(AttachStage::ControlStream, &Ok(())),
        AttachStep::Listen(AttachStage::Datagram)
    );
    assert_eq!(attach_step(AttachStage::Datagram, &Ok(())), AttachStep::Completed);
}

#[test]
fn attach_tolerates_unsupported_listeners() {
    let unsupported = Err(P2pError::new(P2pErrorCode::NotSupport));
    assert_eq!(
        attach_step(AttachStage::Stream, &unsupported),
        AttachStep::Listen(AttachStage::ControlStream)
    );
    assert_eq!(attach_step(AttachStage::Datagram, &unsupported), AttachStep::Completed);
}

#[test]
fn attach_fails_on_other_errors() {
    let refused = Err(P2pError::new(P2pErrorCode::IoError));
    match attach_step(AttachStage::ControlStream, &refused) {
        AttachStep::Failed(e) => assert_eq!(e.code(), P2pErrorCode::IoError),
        other => panic!("unexpected step {:?}", other),
    }
}

#[test]
fn tunnel_is_marked_attached_once() {
    let mut attached: AttachedTunnels<&str> = AttachedTunnels::new();
    assert!(attached.try_mark_attached(7, "a", &vec![]));
    assert_eq!(attached.len(), 1);
    assert!(!attached.try_mark_attached(7, "a-again", &vec![true]));
    assert_eq!(attached.len(), 1);
    assert_eq!(*attached.handle_at(0), "a");
    assert!(attached.try_mark_attached(9, "b", &vec![true]));
    assert_eq!(attached.len(), 2);
    assert_eq!(*attached.handle_at(1), "b");
}

#[test]
fn gone_tunnels_are_dropped_before_marking() {
    let mut attached: AttachedTunnels<u32> = AttachedTunnels::new();
    assert!(attached.try_mark_attached(1, 10, &vec![]));
    assert!(attached.try_mark_attached(2, 20, &vec![true]));
    assert!(attached.try_mark_attached(3, 30, &vec![true, true]));
    // The first tunnel is gone: it may be attached anew.
    assert!(attached.try_mark_attached(1, 11, &vec![false, true, true]));
    assert_eq!(attached.len(), 3);
    assert_eq!(*attached.handle_at(0), 20);
    assert_eq!(*attached.handle_at(1), 30);
    assert_eq!(*attached.handle_at(2), 11);
}

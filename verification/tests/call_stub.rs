use bucky_time::bucky_time_now;
use p2p_frame::sn::service::call_stub::CallStub;
use p2p_frame::types::{P2pId, TunnelId};

fn test_remote(seed: u8) -> P2pId {
    P2pId::from_bytes(vec![seed; 32])
}

#[test]
fn test_insert_dedup_by_remote_and_seq() {
    let mut call_stub = CallStub::new(bucky_time_now());
    let remote = test_remote(1);
    let seq = TunnelId(100);

    assert!(call_stub.insert(&remote, &seq, bucky_time_now()));
    assert!(!call_stub.insert(&remote, &seq, bucky_time_now()));
}

#[test]
fn test_recycle_removes_entries_older_than_60_seconds() {
    let remote = test_remote(2);
    let seq = TunnelId(200);
    let mut call_stub = CallStub::new(0);
    assert!(call_stub.insert(&remote, &seq, 0));

    let now: u64 = 61 * 1_000_000;
    call_stub.recycle(now, bucky_time_now());

    assert!(call_stub.insert(&remote, &seq, bucky_time_now()));
}

#[test]
fn test_recycle_keeps_entries_at_60_seconds_boundary() {
    let remote = test_remote(3);
    let seq = TunnelId(300);
    let mut call_stub = CallStub::new(0);
    assert!(call_stub.insert(&remote, &seq, 0));

    let now: u64 = 60 * 1_000_000;
    call_stub.recycle(now, bucky_time_now());

    assert!(!call_stub.insert(&remote, &seq, bucky_time_now()));
}

#[test]
fn call_stub_same_remote_other_tunnel_is_a_new_call() {
    let mut call_stub = CallStub::new(0);
    let remote = test_remote(4);
    assert!(call_stub.insert(&remote, &TunnelId(1), 10));
    assert!(call_stub.insert(&remote, &TunnelId(2), 10));
    assert!(call_stub.insert(&test_remote(5), &TunnelId(1), 10));
    assert!(!call_stub.insert(&remote, &TunnelId(1), 11));
}

#[test]
fn call_stub_recycle_waits_for_its_own_interval() {
    let remote = test_remote(6);
    let mut call_stub = CallStub::new(50_000_000);
    assert!(call_stub.insert(&remote, &TunnelId(9), 0));
    // Less than a full interval since the last recycle: nothing is dropped.
    call_stub.recycle(100_000_000, 100_000_000);
    assert!(!call_stub.insert(&remote, &TunnelId(9), 100_000_000));
}

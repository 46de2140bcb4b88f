use p2p_frame::sn::service::statistic::{StatisticManager, CACHE_MAX_TIMEOUT};
use p2p_frame::types::P2pId;

fn id(seed: u8) -> P2pId {
    P2pId::from_bytes(vec![seed; 32])
}

#[test]
fn peer_status_is_created_once_and_then_kept() {
    let mut m: StatisticManager<(u8, u64)> = StatisticManager::new(0);
    assert_eq!(*m.get_peer_status(id(1), (1, 100)), (1, 100));
    assert_eq!(*m.get_peer_status(id(1), (1, 999)), (1, 100));
    assert_eq!(*m.get_peer_status(id(2), (2, 200)), (2, 200));
    assert_eq!(m.len(), 2);
}

#[test]
fn statistics_are_written_out_after_the_cache_timeout() {
    let mut m: StatisticManager<u8> = StatisticManager::new(1_000);
    assert!(!m.on_time_escape(1_000 + CACHE_MAX_TIMEOUT - 1));
    assert!(m.on_time_escape(1_000 + CACHE_MAX_TIMEOUT));
    assert!(!m.on_time_escape(1_000 + CACHE_MAX_TIMEOUT + 1));
    assert!(m.on_time_escape(1_000 + 2 * CACHE_MAX_TIMEOUT));
    assert!(!m.on_time_escape(0));
}

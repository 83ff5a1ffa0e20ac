use gateway_core::load_balance::{
    total_weight, weighted_pick_index, weighted_random_pick, ConsistentHashRing,
    DEFAULT_VIRTUAL_NODES,
};
use gateway_core::svc_discover::ServiceEndpoint;

fn ep(host: &str, port: u16, weight: u32) -> ServiceEndpoint {
    ServiceEndpoint { host: host.to_string(), port, weight }
}

#[test]
fn test_weighted_pick_walks_cumulative_weights() {
    let eps = vec![ep("1.1.1.1", 80, 1), ep("2.2.2.2", 80, 3), ep("3.3.3.3", 80, 2)];
    assert_eq!(total_weight(&eps), 6);
    assert_eq!(weighted_pick_index(&eps, 0), 0);
    assert_eq!(weighted_pick_index(&eps, 1), 1);
    assert_eq!(weighted_pick_index(&eps, 2), 1);
    assert_eq!(weighted_pick_index(&eps, 3), 1);
    assert_eq!(weighted_pick_index(&eps, 4), 2);
    assert_eq!(weighted_pick_index(&eps, 5), 2);
}

#[test]
fn test_weighted_pick_skips_zero_weight() {
    let eps = vec![ep("1.1.1.1", 80, 0), ep("2.2.2.2", 80, 2)];
    assert_eq!(weighted_pick_index(&eps, 0), 1);
    assert_eq!(weighted_pick_index(&eps, 1), 1);
}

#[test]
fn test_weighted_random_empty_or_weightless() {
    assert!(weighted_random_pick(&vec![]).is_none());
    assert!(weighted_random_pick(&vec![ep("1.1.1.1", 80, 0)]).is_none());
}

#[test]
fn test_weighted_random_distribution() {
    // a three-to-one weighting over ten thousand draws lands close to it;
    // the expected count is 7500 with a standard deviation near 43, so the
    // natural +-100 band is about 2.3 sigma and would fail a run in fifty;
    // the band here is widened to about 4.6 sigma to keep the test stable
    let eps = vec![ep("1.1.1.1", 80, 1), ep("2.2.2.2", 80, 3)];
    let mut second: u32 = 0;
    for _ in 0..10_000 {
        if weighted_random_pick(&eps).unwrap() == 1 {
            second += 1;
        }
    }
    assert!(second >= 7300, "second endpoint picked {} times", second);
    assert!(second <= 7700, "second endpoint picked {} times", second);
}

#[test]
fn test_ring_shape_and_determinism() {
    let eps = vec![ep("1.1.1.1", 80, 1), ep("2.2.2.2", 80, 3)];
    let ring = ConsistentHashRing::build(&eps, DEFAULT_VIRTUAL_NODES);
    assert_eq!(ring.nodes.len(), 2 * DEFAULT_VIRTUAL_NODES as usize);
    assert_eq!(ring.ep_count, 2);
    let a = ring.pick(0x1234_5678_9abc_def0).unwrap();
    let b = ring.pick(0x1234_5678_9abc_def0).unwrap();
    assert_eq!(a, b);
    assert!(a < 2);
    // a rebuilt ring routes the same hash the same way
    let ring2 = ConsistentHashRing::build(&eps, DEFAULT_VIRTUAL_NODES);
    assert_eq!(ring2.pick(0x1234_5678_9abc_def0).unwrap(), a);
}

#[test]
fn test_ring_single_endpoint_owns_everything() {
    let eps = vec![ep("9.9.9.9", 443, 1)];
    let ring = ConsistentHashRing::build(&eps, 16);
    for h in [0u64, 1, u64::MAX, 0xdead_beef] {
        assert_eq!(ring.pick(h).unwrap(), 0);
    }
}

#[test]
fn test_ring_empty() {
    let ring = ConsistentHashRing::build(&vec![], DEFAULT_VIRTUAL_NODES);
    assert!(ring.pick(7).is_none());
}

#[test]
fn test_ring_spreads_over_endpoints() {
    // with many virtual nodes both endpoints own some hashes
    let eps = vec![ep("1.1.1.1", 80, 1), ep("2.2.2.2", 80, 1)];
    let ring = ConsistentHashRing::build(&eps, DEFAULT_VIRTUAL_NODES);
    let mut seen = [false, false];
    for i in 0..64u64 {
        let h = i.wrapping_mul(0x9e37_79b9_7f4a_7c15);
        seen[ring.pick(h).unwrap()] = true;
    }
    assert!(seen[0] && seen[1]);
}

//! Members, their addresses and gossip readiness.

use biei::membership::{
    draining_value, entries_to_publish, has_ready_peer, initial_key_values, is_not_draining, load_peer_addresses,
    view_members, writes_state, GossipReadiness, Lookup, PeerAddressCache, PeerState,
    GOSSIP_BOOTSTRAP_GRACE, PEER_ADDRESS_CACHE_TTL,
};
use biei::options::{IpAddress, SocketAddress};

fn peer(node_id: &str, live: bool, draining: Option<&str>, port: u16) -> PeerState {
    PeerState {
        node_id: node_id.to_string(),
        live,
        key_values: draining
            .map(|value| ("draining".to_string(), value.to_string()))
            .into_iter()
            .collect(),
        advertised: Some(SocketAddress { ip: IpAddress::V4(0x7f00_0001), port }),
    }
}

#[test]
fn draining_predicate_accepts_missing_or_false_and_rejects_true() {
    assert!(is_not_draining(&peer("a", true, None, 1).key_values));
    assert!(is_not_draining(&peer("a", true, Some("false"), 1).key_values));
    assert!(!is_not_draining(&peer("a", true, Some("true"), 1).key_values));
}

#[test]
fn ready_peer_requires_live_non_draining_remote() {
    assert!(!has_ready_peer(
        "node-a",
        &vec![peer("node-a", true, None, 9001), peer("node-b", false, None, 9002)],
    ));
    assert!(!has_ready_peer(
        "node-a",
        &vec![peer("node-a", true, None, 9001), peer("node-b", true, Some("true"), 9002)],
    ));
    assert!(has_ready_peer(
        "node-a",
        &vec![peer("node-a", true, None, 9001), peer("node-b", true, Some("false"), 9002)],
    ));
}

#[test]
fn draining_members_are_not_addressed() {
    let peers = vec![
        peer("a", true, None, 1),
        peer("b", true, Some("true"), 2),
        peer("c", false, None, 3),
    ];
    let addresses = load_peer_addresses(&peers);

    assert_eq!(addresses.get("a").map(|a| a.port), Some(1));
    assert_eq!(addresses.get("b"), None);
    assert_eq!(addresses.get("c"), None);
    assert_eq!(view_members(&peers), vec![0]);
}

#[test]
fn one_reader_refreshes_stale_addresses() {
    let mut cache = PeerAddressCache::new();
    assert!(matches!(cache.lookup(0, "a"), Lookup::Refresh));
    cache.complete(0, load_peer_addresses(&vec![peer("a", true, None, 1)]));

    let fresh = PEER_ADDRESS_CACHE_TTL - 1;
    assert!(matches!(cache.lookup(fresh, "a"), Lookup::Return(Some(a)) if a.port == 1));
    let stale = PEER_ADDRESS_CACHE_TTL;
    assert!(matches!(cache.lookup(stale, "a"), Lookup::Refresh));
    // While one reader is at it, the others use what is there.
    assert!(matches!(cache.lookup(stale, "a"), Lookup::Return(Some(_))));
    cache.abandon();
    assert!(matches!(cache.lookup(stale, "a"), Lookup::Refresh));
}

#[test]
fn gossip_is_ready_with_a_peer_or_after_the_grace() {
    let mut seeded = GossipReadiness::new(true, 0);
    assert!(!seeded.is_gossip_ready(1, false));
    assert!(seeded.is_gossip_ready(2, true));
    assert!(seeded.is_gossip_ready(3, false));

    let mut alone = GossipReadiness::new(true, 0);
    assert!(!alone.is_gossip_ready(GOSSIP_BOOTSTRAP_GRACE - 1, false));
    assert!(alone.is_gossip_ready(GOSSIP_BOOTSTRAP_GRACE, false));
}

#[test]
fn a_node_writes_only_its_own_state() {
    assert!(writes_state("a", "a", 1));
    assert!(!writes_state("a", "b", 1));
    assert!(!writes_state("a", "a", 0));
    assert_eq!(draining_value(true), "true");
    assert_eq!(initial_key_values("a", "127.0.0.1:1")[0], ("node-id".to_string(), "a".to_string()));
}

#[test]
fn only_changes_are_published() {
    let entry = |key: &str, value: &str| (key.to_string(), value.to_string());
    let last = vec![entry("a", "1"), entry("b", "2")];
    let entries = vec![entry("b", "3"), entry("a", "1"), entry("c", "4")];
    assert_eq!(entries_to_publish(&last, &entries), vec![0, 2]);
    assert_eq!(entries_to_publish(&entries, &entries), Vec::<usize>::new());
    assert_eq!(entries_to_publish(&Vec::new(), &last), vec![0, 1]);
}

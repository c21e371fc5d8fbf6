//! The cluster's members, as gossip tells them.
//!
//! Points in time and spans are in nanoseconds.

use vstd::prelude::*;
use crate::options::SocketAddress;
use crate::pairs::{has_label, label_of, label_views, labelled};
use crate::text::same_text;

verus! {

/// How long peer addresses are used before they are read again.
pub const PEER_ADDRESS_CACHE_TTL: u64 = 100_000_000;

/// How long a node that was given seeds waits for a peer before it is ready
/// without one.
pub const GOSSIP_BOOTSTRAP_GRACE: u64 = 30_000_000_000;

/// A member, as gossip tells it.
#[derive(Debug)]
pub struct PeerState {
    pub node_id: String,
    /// Whether the member is heard of.
    pub live: bool,
    pub key_values: Vec<(String, String)>,
    /// What the member's advertised address reads as, if it is one.
    pub advertised: Option<SocketAddress>,
}

/// The member takes no more requests.
pub open spec fn drains(key_values: Seq<(String, String)>) -> bool {
    labelled(label_views(key_values), "draining"@, "true"@)
}

/// Whether a member takes no more requests.
pub fn is_draining(key_values: &Vec<(String, String)>) -> (r: bool)
    ensures
        r == drains(key_values@),
{
    has_label(key_values, "draining", "true")
}

/// Whether a member still takes requests: one that says nothing of it does.
pub fn is_not_draining(key_values: &Vec<(String, String)>) -> (r: bool)
    ensures
        r == !drains(key_values@),
{
    !is_draining(key_values)
}

/// The member can be sent requests.
pub open spec fn reachable(peer: PeerState) -> bool {
    peer.live && !drains(peer.key_values@)
}

/// A member other than the node itself can be sent requests.
pub open spec fn ready_peer(self_id: Seq<char>, peers: Seq<PeerState>) -> bool {
    exists|i: int|
        0 <= i < peers.len() && (#[trigger] peers[i]).node_id@ != self_id && reachable(peers[i])
}

/// Whether a member other than the node itself can be sent requests.
pub fn has_ready_peer(self_id: &str, peers: &Vec<PeerState>) -> (r: bool)
    ensures
        r == ready_peer(self_id@, peers@),
{
    let mut i: usize = 0;
    while i < peers.len()
        invariant
            i <= peers@.len(),
            forall|j: int|
                0 <= j < i ==> !((#[trigger] peers@[j]).node_id@ != self_id@ && reachable(
                    peers@[j],
                )),
        decreases peers.len() - i,
    {
        let peer = &peers[i];
        if !same_text(peer.node_id.as_str(), self_id) && peer.live && !is_draining(
            &peer.key_values,
        ) {
            assert(peers@[i as int].node_id@ != self_id@ && reachable(peers@[i as int]));
            return true;
        }
        i += 1;
    }
    false
}

/// The members that can be sent requests, in the order in which gossip lists
/// them.
pub open spec fn members_of(peers: Seq<PeerState>) -> Seq<int>
    decreases peers.len(),
{
    if peers.len() == 0 {
        Seq::empty()
    } else {
        let before = members_of(peers.drop_last());
        if reachable(peers.last()) {
            before.push(peers.len() - 1)
        } else {
            before
        }
    }
}

/// The places of the members that can be sent requests.
pub fn view_members(peers: &Vec<PeerState>) -> (r: Vec<usize>)
    ensures
        r@.map_values(|i: usize| i as int) == members_of(peers@),
{
    let mut out: Vec<usize> = Vec::new();
    let mut i: usize = 0;
    assert(peers@.take(0) =~= Seq::<PeerState>::empty());
    assert(out@.map_values(|k: usize| k as int) =~= Seq::<int>::empty());
    while i < peers.len()
        invariant
            i <= peers@.len(),
            out@.map_values(|k: usize| k as int) == members_of(peers@.take(i as int)),
        decreases peers.len() - i,
    {
        proof {
            assert(peers@.take(i + 1).drop_last() =~= peers@.take(i as int));
            assert(peers@.take(i + 1).last() == peers@[i as int]);
        }
        let ghost before = out@;
        if peers[i].live && !is_draining(&peers[i].key_values) {
            out.push(i);
            assert(out@.map_values(|k: usize| k as int) =~= before.map_values(
                |k: usize| k as int,
            ).push(i as int));
        }
        i += 1;
    }
    assert(peers@.take(i as int) =~= peers@);
    out
}

/// Where a member is reached: at the address that it last advertised, if it can
/// be sent requests.
pub open spec fn address_in(peers: Seq<PeerState>, id: Seq<char>) -> Option<SocketAddress>
    decreases peers.len(),
{
    if peers.len() == 0 {
        None
    } else {
        let last = peers.last();
        if last.node_id@ == id && reachable(last) && last.advertised is Some {
            last.advertised
        } else {
            address_in(peers.drop_last(), id)
        }
    }
}

/// Where members are reached.
#[derive(Debug)]
pub struct PeerAddresses {
    pub entries: Vec<(String, SocketAddress)>,
}

/// The address that is listed last for an id.
pub open spec fn listed_address(
    entries: Seq<(String, SocketAddress)>,
    id: Seq<char>,
) -> Option<SocketAddress>
    decreases entries.len(),
{
    if entries.len() == 0 {
        None
    } else if entries.last().0@ == id {
        Some(entries.last().1)
    } else {
        listed_address(entries.drop_last(), id)
    }
}

impl PeerAddresses {
    /// Where a member is reached.
    pub open spec fn of(&self, id: Seq<char>) -> Option<SocketAddress> {
        listed_address(self.entries@, id)
    }

    /// Where a member is reached.
    pub fn get(&self, id: &str) -> (r: Option<SocketAddress>)
        ensures
            r == self.of(id@),
    {
        let mut i: usize = self.entries.len();
        assert(self.entries@.take(i as int) =~= self.entries@);
        while i > 0
            invariant
                i <= self.entries@.len(),
                listed_address(self.entries@.take(i as int), id@) == self.of(id@),
            decreases i,
        {
            let ghost here = self.entries@.take(i as int);
            assert(here.drop_last() =~= self.entries@.take(i - 1));
            assert(here.last() == self.entries@[i - 1]);
            if same_text(self.entries[i - 1].0.as_str(), id) {
                return Some(self.entries[i - 1].1);
            }
            i -= 1;
        }
        assert(self.entries@.take(0) =~= Seq::<(String, SocketAddress)>::empty());
        None
    }
}

/// Reads where members are reached off gossip.
pub fn load_peer_addresses(peers: &Vec<PeerState>) -> (r: PeerAddresses)
    ensures
        forall|id: Seq<char>| #[trigger] r.of(id) == address_in(peers@, id),
{
    let mut out = PeerAddresses { entries: Vec::new() };
    let mut i: usize = 0;
    assert(peers@.take(0) =~= Seq::<PeerState>::empty());
    while i < peers.len()
        invariant
            i <= peers@.len(),
            forall|id: Seq<char>| #[trigger]
                out.of(id) == address_in(peers@.take(i as int), id),
        decreases peers.len() - i,
    {
        let peer = &peers[i];
        let ghost before = out;
        let ghost next = peers@.take(i + 1);
        proof {
            assert(next.drop_last() =~= peers@.take(i as int));
            assert(next.last() == *peer);
        }
        if peer.live && !is_draining(&peer.key_values) {
            if let Some(address) = peer.advertised {
                out.entries.push((peer.node_id.clone(), address));
                assert(out.entries@.drop_last() =~= before.entries@);
                assert forall|id: Seq<char>| #[trigger] out.of(id) == address_in(next, id) by {
                    assert(before.of(id) == address_in(peers@.take(i as int), id));
                }
            } else {
                assert forall|id: Seq<char>| #[trigger] out.of(id) == address_in(next, id) by {
                    assert(before.of(id) == address_in(peers@.take(i as int), id));
                }
            }
        } else {
            assert forall|id: Seq<char>| #[trigger] out.of(id) == address_in(next, id) by {
                assert(before.of(id) == address_in(peers@.take(i as int), id));
            }
        }
        i += 1;
    }
    assert(peers@.take(i as int) =~= peers@);
    out
}

/// A node that drains is sent nothing.
pub proof fn law_draining_members_are_not_addressed(peers: Seq<PeerState>, id: Seq<char>)
    requires
        forall|i: int|
            0 <= i < peers.len() && (#[trigger] peers[i]).node_id@ == id ==> !reachable(peers[i]),
    ensures
        address_in(peers, id) is None,
    decreases peers.len(),
{
    if peers.len() > 0 {
        let front = peers.drop_last();
        assert forall|i: int| 0 <= i < front.len() && (#[trigger] front[i]).node_id@ == id implies
            !reachable(front[i]) by {
            assert(front[i] == peers[i]);
        }
        law_draining_members_are_not_addressed(front, id);
        assert(peers[peers.len() - 1] == peers.last());
    }
}

/// Addresses that were read, and until when they are used.
#[derive(Debug)]
pub struct CachedPeerAddresses {
    pub expires_at: u64,
    pub addresses: PeerAddresses,
}

/// What to do about an address.
#[derive(Clone, Copy, Debug, PartialEq, Eq, Structural)]
pub enum Lookup {
    Return(Option<SocketAddress>),
    /// Read the addresses again.
    Refresh,
    /// Wait until someone else has read them.
    Wait,
}

/// The addresses of members, read again from time to time by one caller at a
/// time.
#[derive(Debug)]
pub struct PeerAddressCache {
    pub snapshot: Option<CachedPeerAddresses>,
    pub refreshing: bool,
}

/// What to do about an address. A stale one is served while it is read again.
pub open spec fn lookup_in(cache: PeerAddressCache, now: u64, id: Seq<char>) -> Lookup {
    match cache.snapshot {
        Some(s) => if s.expires_at > now || cache.refreshing {
            Lookup::Return(s.addresses.of(id))
        } else {
            Lookup::Refresh
        },
        None => if cache.refreshing {
            Lookup::Wait
        } else {
            Lookup::Refresh
        },
    }
}

impl PeerAddressCache {
    pub fn new() -> (r: PeerAddressCache)
        ensures
            r.snapshot is None,
            !r.refreshing,
    {
        PeerAddressCache { snapshot: None, refreshing: false }
    }

    /// Decides how a caller gets an address. One that is told to read the
    /// addresses again is the only one until it is done.
    pub fn lookup(&mut self, now: u64, id: &str) -> (r: Lookup)
        ensures
            r == lookup_in(*old(self), now, id@),
            final(self).snapshot == old(self).snapshot,
            final(self).refreshing == (old(self).refreshing || r == Lookup::Refresh),
    {
        let found = match &self.snapshot {
            Some(s) => {
                if s.expires_at > now || self.refreshing {
                    Lookup::Return(s.addresses.get(id))
                } else {
                    Lookup::Refresh
                }
            },
            None => {
                if self.refreshing {
                    Lookup::Wait
                } else {
                    Lookup::Refresh
                }
            },
        };
        if let Lookup::Refresh = found {
            self.refreshing = true;
        }
        found
    }

    /// The addresses were read.
    pub fn complete(&mut self, now: u64, addresses: PeerAddresses)
        requires
            now + PEER_ADDRESS_CACHE_TTL <= u64::MAX,
        ensures
            final(self).snapshot == Some(
                CachedPeerAddresses {
                    expires_at: (now + PEER_ADDRESS_CACHE_TTL) as u64,
                    addresses,
                },
            ),
            !final(self).refreshing,
    {
        self.snapshot = Some(
            CachedPeerAddresses { expires_at: now + PEER_ADDRESS_CACHE_TTL, addresses },
        );
        self.refreshing = false;
    }

    /// The caller that was to read the addresses went away: another may.
    pub fn abandon(&mut self)
        ensures
            final(self).snapshot == old(self).snapshot,
            !final(self).refreshing,
    {
        self.refreshing = false;
    }
}

/// While one caller reads the addresses, no other is told to.
pub proof fn law_one_reader_at_a_time(cache: PeerAddressCache, now: u64, id: Seq<char>)
    requires
        cache.refreshing,
    ensures
        lookup_in(cache, now, id) != Lookup::Refresh,
{
}

/// Whether a node has found its cluster.
#[derive(Clone, Copy, Debug, PartialEq, Eq, Structural)]
pub struct GossipReadiness {
    /// Whether the node was given seeds.
    pub requires_peer: bool,
    /// Whether a peer has been seen.
    pub bootstrapped: bool,
    pub deadline: u64,
}

impl GossipReadiness {
    /// A node that starts now.
    pub fn new(requires_peer: bool, now: u64) -> (r: GossipReadiness)
        requires
            now + GOSSIP_BOOTSTRAP_GRACE <= u64::MAX,
        ensures
            r == (GossipReadiness {
                requires_peer,
                bootstrapped: false,
                deadline: (now + GOSSIP_BOOTSTRAP_GRACE) as u64,
            }),
    {
        GossipReadiness {
            requires_peer,
            bootstrapped: false,
            deadline: now + GOSSIP_BOOTSTRAP_GRACE,
        }
    }

    /// The node is ready, whatever its peers.
    pub open spec fn settled(self, now: u64) -> bool {
        !self.requires_peer || self.bootstrapped || now >= self.deadline
    }

    /// Whether the node is ready, whatever its peers.
    pub fn is_settled(&self, now: u64) -> (r: bool)
        ensures
            r == self.settled(now),
    {
        !self.requires_peer || self.bootstrapped || now >= self.deadline
    }

    /// Whether the node is ready, given whether a peer is: a peer that was seen
    /// once is enough.
    pub fn is_gossip_ready(&mut self, now: u64, has_peer: bool) -> (r: bool)
        ensures
            r == (old(self).settled(now) || has_peer),
            *final(self) == (GossipReadiness {
                bootstrapped: old(self).bootstrapped || !old(self).settled(now) && has_peer,
                ..*old(self)
            }),
    {
        if self.is_settled(now) {
            return true;
        }
        if has_peer {
            self.bootstrapped = true;
        }
        has_peer
    }
}

/// A node that was ready stays ready, even if all its peers are lost.
pub proof fn law_readiness_is_not_lost(
    before: GossipReadiness,
    now: u64,
    has_peer: bool,
    after: GossipReadiness,
    later: u64,
)
    requires
        before.settled(now) || has_peer,
        after == (GossipReadiness {
            bootstrapped: before.bootstrapped || !before.settled(now) && has_peer,
            ..before
        }),
        now <= later,
    ensures
        after.settled(later),
{
}

/// A node that was given seeds, and has no peer, is ready once the grace is over.
pub proof fn law_grace_ends(requires_peer: bool, started: u64, now: u64)
    requires
        started + GOSSIP_BOOTSTRAP_GRACE <= now,
    ensures
        (GossipReadiness {
            requires_peer,
            bootstrapped: false,
            deadline: (started + GOSSIP_BOOTSTRAP_GRACE) as u64,
        }).settled(now),
{
}

/// Whether a node writes what it was asked to: only its own state, and only if
/// there is something to write.
pub fn writes_state(node_id: &str, self_id: &str, entries: usize) -> (r: bool)
    ensures
        r == (node_id@ == self_id@ && entries > 0),
{
    same_text(node_id, self_id) && entries > 0
}

/// What a node says of itself when it starts.
pub fn initial_key_values(node_id: &str, advertise_addr: &str) -> (r: Vec<(String, String)>)
    ensures
        label_views(r@) == seq![
            ("node-id"@, node_id@),
            ("advertise-addr"@, advertise_addr@),
            ("draining"@, "false"@),
        ],
        !drains(r@),
{
    let mut out: Vec<(String, String)> = Vec::new();
    out.push(("node-id".to_owned(), node_id.to_owned()));
    out.push(("advertise-addr".to_owned(), advertise_addr.to_owned()));
    out.push(("draining".to_owned(), "false".to_owned()));
    proof {
        let all = label_views(out@);
        assert(all =~= seq![
            ("node-id"@, node_id@),
            ("advertise-addr"@, advertise_addr@),
            ("draining"@, "false"@),
        ]);
        reveal_strlit("node-id");
        reveal_strlit("advertise-addr");
        reveal_strlit("draining");
        reveal_strlit("false");
        reveal_strlit("true");
        assert("node-id"@.len() == 7 && "advertise-addr"@.len() == 14 && "draining"@.len() == 8);
        assert("false"@.len() == 5 && "true"@.len() == 4);
        reveal_with_fuel(label_of, 4);
        assert(all.skip(1)[0] == all[1]);
        assert(all.skip(1).skip(1)[0] == all[2]);
        assert(label_of(all, "draining"@) == Some("false"@));
    }
    out
}

/// How a node says whether it drains.
pub fn draining_value(draining: bool) -> (r: &'static str)
    ensures
        r@ == if draining {
            "true"@
        } else {
            "false"@
        },
{
    if draining {
        "true"
    } else {
        "false"
    }
}

/// The entries that were not published with these values before, by their
/// places, in order.
pub open spec fn unpublished(
    last: Seq<(Seq<char>, Seq<char>)>,
    entries: Seq<(Seq<char>, Seq<char>)>,
) -> Seq<int>
    decreases entries.len(),
{
    if entries.len() == 0 {
        seq![]
    } else {
        let rest = unpublished(last, entries.drop_last());
        let (key, value) = entries.last();
        if label_of(last, key) == Some(value) {
            rest
        } else {
            rest.push(entries.len() - 1)
        }
    }
}

pub open spec fn places(indices: Seq<usize>) -> Seq<int> {
    Seq::new(indices.len(), |i: int| indices[i] as int)
}

/// Which entries a node has to publish: those that are new or have changed since
/// the last time.
pub fn entries_to_publish(last: &Vec<(String, String)>, entries: &Vec<(String, String)>) -> (r: Vec<
    usize,
>)
    ensures
        places(r@) == unpublished(label_views(last@), label_views(entries@)),
        forall|i: int| 0 <= i < r@.len() ==> #[trigger] r@[i] < entries@.len(),
{
    let ghost known = label_views(last@);
    let ghost all = label_views(entries@);
    let mut out: Vec<usize> = Vec::new();
    let mut i: usize = 0;
    assert(places(out@) =~= unpublished(known, all.take(0)));
    while i < entries.len()
        invariant
            i <= entries@.len(),
            known == label_views(last@),
            all == label_views(entries@),
            places(out@) == unpublished(known, all.take(i as int)),
            forall|k: int| 0 <= k < out@.len() ==> #[trigger] out@[k] < i,
        decreases entries.len() - i,
    {
        let ghost before = out@;
        proof {
            assert(all.take(i + 1).drop_last() =~= all.take(i as int));
            assert(all.take(i + 1).last() == (entries@[i as int].0@, entries@[i as int].1@));
        }
        if !has_label(last, entries[i].0.as_str(), entries[i].1.as_str()) {
            out.push(i);
            assert(places(out@) =~= places(before).push(i as int));
        }
        i += 1;
    }
    assert(all.take(i as int) =~= all);
    out
}

/// What members know of a node after it published some of its entries.
pub open spec fn known_after(
    known: Map<Seq<char>, Seq<char>>,
    entries: Seq<(Seq<char>, Seq<char>)>,
    published: Seq<int>,
) -> Map<Seq<char>, Seq<char>>
    decreases published.len(),
{
    if published.len() == 0 {
        known
    } else {
        let (key, value) = entries[published.last()];
        known_after(known, entries, published.drop_last()).insert(key, value)
    }
}

/// Members who know what was published last know every entry once the changes
/// are published.
pub proof fn law_publishing_changes_is_enough(
    known: Map<Seq<char>, Seq<char>>,
    last: Seq<(Seq<char>, Seq<char>)>,
    entries: Seq<(Seq<char>, Seq<char>)>,
    i: int,
)
    requires
        0 <= i < entries.len(),
        forall|a: int, b: int|
            0 <= a < b < entries.len() ==> (#[trigger] entries[a]).0 != (#[trigger] entries[b]).0,
        forall|key: Seq<char>| #[trigger]
            label_of(last, key) is Some ==> known.contains_key(key) && known[key] == label_of(
                last,
                key,
            )->0,
    ensures
        known_after(known, entries, unpublished(last, entries)).contains_key(entries[i].0),
        known_after(known, entries, unpublished(last, entries))[entries[i].0] == entries[i].1,
{
    lemma_known_after(known, last, entries, entries.len() as int, i);
    assert(entries.take(entries.len() as int) =~= entries);
}

proof fn lemma_known_after(
    known: Map<Seq<char>, Seq<char>>,
    last: Seq<(Seq<char>, Seq<char>)>,
    entries: Seq<(Seq<char>, Seq<char>)>,
    n: int,
    i: int,
)
    requires
        0 <= n <= entries.len(),
        0 <= i < entries.len(),
        forall|a: int, b: int|
            0 <= a < b < entries.len() ==> (#[trigger] entries[a]).0 != (#[trigger] entries[b]).0,
        forall|key: Seq<char>| #[trigger]
            label_of(last, key) is Some ==> known.contains_key(key) && known[key] == label_of(
                last,
                key,
            )->0,
    ensures
        ({
            let then = known_after(known, entries, unpublished(last, entries.take(n)));
            let (key, value) = entries[i];
            if i < n {
                then.contains_key(key) && then[key] == value
            } else {
                then.contains_key(key) == known.contains_key(key) && then[key] == known[key]
            }
        }),
    decreases n,
{
    if n > 0 {
        lemma_known_after(known, last, entries, n - 1, i);
        let upto = entries.take(n);
        assert(upto.drop_last() =~= entries.take(n - 1));
        assert(upto.last() == entries[n - 1]);
        let rest = unpublished(last, entries.take(n - 1));
        let all = unpublished(last, upto);
        if all != rest {
            assert(all.drop_last() =~= rest);
            assert(all.last() == n - 1);
        }
        if i != n - 1 {
            if i < n - 1 {
                assert(entries[i].0 != entries[n - 1].0);
            } else {
                assert(entries[n - 1].0 != entries[i].0);
            }
        } else {
            lemma_known_after(known, last, entries, n - 1, n - 1);
        }
    }
}

/// The members are the peers that are live and have not said that they drain, in order.
pub proof fn law_members_are_those_that_can_be_asked(peers: Seq<PeerState>, i: int)
    ensures
        members_of(peers).contains(i) <==> 0 <= i < peers.len() && peers[i].live && label_of(
            label_views(peers[i].key_values@),
            "draining"@,
        ) != Some("true"@),
        forall|a: int, b: int|
            0 <= a < b < members_of(peers).len() ==> #[trigger] members_of(peers)[a]
                < #[trigger] members_of(peers)[b],
    decreases peers.len(),
{
    let all = members_of(peers);
    if peers.len() > 0 {
        let before = members_of(peers.drop_last());
        law_members_are_those_that_can_be_asked(peers.drop_last(), i);
        if 0 <= i < peers.len() - 1 {
            assert(peers.drop_last()[i] == peers[i]);
        }
        if reachable(peers.last()) {
            assert(all == before.push(peers.len() - 1));
            assert(all[all.len() - 1] == peers.len() - 1);
            if before.contains(i) {
                let k = choose|k: int| 0 <= k < before.len() && before[k] == i;
                assert(all[k] == i);
            }
            if all.contains(i) && i != peers.len() - 1 {
                let k = choose|k: int| 0 <= k < all.len() && all[k] == i;
                assert(before[k] == i);
            }
            assert forall|a: int, b: int| 0 <= a < b < all.len() implies #[trigger] all[a]
                < #[trigger] all[b] by {
                if b < before.len() {
                    assert(before[a] < before[b]);
                } else {
                    assert(all[a] == before[a]);
                    law_members_are_those_that_can_be_asked(peers.drop_last(), before[a]);
                    assert(before.contains(before[a]));
                }
            }
        }
    }
}

/// A peer that can be asked and says where is addressed there; the last of those with one
/// id counts.
pub proof fn law_peers_are_addressed_where_they_say(peers: Seq<PeerState>, i: int)
    requires
        0 <= i < peers.len(),
        peers[i].live,
        label_of(label_views(peers[i].key_values@), "draining"@) != Some("true"@),
        peers[i].advertised is Some,
        forall|j: int|
            i < j < peers.len() ==> (#[trigger] peers[j]).node_id@ != peers[i].node_id@,
    ensures
        address_in(peers, peers[i].node_id@) == peers[i].advertised,
    decreases peers.len(),
{
    if i < peers.len() - 1 {
        let front = peers.drop_last();
        assert(front[i] == peers[i]);
        assert(peers[peers.len() - 1].node_id@ != peers[i].node_id@);
        assert forall|j: int| i < j < front.len() implies (#[trigger] front[j]).node_id@
            != front[i].node_id@ by {
            assert(front[j] == peers[j]);
        }
        law_peers_are_addressed_where_they_say(front, i);
    }
}

/// An address that was put down is found under its id, and every other as before.
pub proof fn law_addresses_are_found_by_id(
    entries: Seq<(String, SocketAddress)>,
    entry: (String, SocketAddress),
    id: Seq<char>,
)
    ensures
        listed_address(entries.push(entry), entry.0@) == Some(entry.1),
        id != entry.0@ ==> listed_address(entries.push(entry), id) == listed_address(entries, id),
        listed_address(Seq::empty(), id) is None,
{
    assert(entries.push(entry).drop_last() =~= entries);
}

/// Addresses that were read are served for a tenth of a second. Then the first caller
/// reads them again, and those who come meanwhile get the old ones, or wait if there are
/// none.
pub proof fn law_addresses_are_served_while_fresh(
    addresses: PeerAddresses,
    read: u64,
    now: u64,
    refreshing: bool,
    id: Seq<char>,
)
    requires
        read + 100_000_000 <= u64::MAX,
    ensures
        ({
            let cache = PeerAddressCache {
                snapshot: Some(
                    CachedPeerAddresses {
                        expires_at: (read + PEER_ADDRESS_CACHE_TTL) as u64,
                        addresses,
                    },
                ),
                refreshing,
            };
            &&& now < read + 100_000_000 ==> lookup_in(cache, now, id) == Lookup::Return(
                listed_address(addresses.entries@, id),
            )
            &&& now >= read + 100_000_000 && !refreshing ==> lookup_in(cache, now, id)
                == Lookup::Refresh
            &&& refreshing ==> lookup_in(cache, now, id) == Lookup::Return(
                listed_address(addresses.entries@, id),
            )
        }),
        lookup_in(PeerAddressCache { snapshot: None, refreshing: true }, now, id) == Lookup::Wait,
        lookup_in(PeerAddressCache { snapshot: None, refreshing: false }, now, id)
            == Lookup::Refresh,
{
}

/// A node that needs a peer and never had one is not ready for half a minute; one that
/// needs none is ready at once, and so is one that had one.
pub proof fn law_readiness_waits_for_a_peer(started: u64, now: u64, deadline: u64)
    requires
        started + 30_000_000_000 <= u64::MAX,
    ensures
        (GossipReadiness {
            requires_peer: true,
            bootstrapped: false,
            deadline: (started + GOSSIP_BOOTSTRAP_GRACE) as u64,
        }).settled(now) <==> now >= started + 30_000_000_000,
        (GossipReadiness { requires_peer: false, bootstrapped: false, deadline }).settled(now),
        (GossipReadiness { requires_peer: true, bootstrapped: true, deadline }).settled(now),
{
}

/// An entry is published just if its value is not the one that was published last.
pub proof fn law_only_changes_are_published(
    last: Seq<(Seq<char>, Seq<char>)>,
    entries: Seq<(Seq<char>, Seq<char>)>,
    i: int,
)
    ensures
        unpublished(last, entries).contains(i) <==> 0 <= i < entries.len() && label_of(
            last,
            entries[i].0,
        ) != Some(entries[i].1),
    decreases entries.len(),
{
    if entries.len() > 0 {
        let rest = unpublished(last, entries.drop_last());
        let all = unpublished(last, entries);
        law_only_changes_are_published(last, entries.drop_last(), i);
        if 0 <= i < entries.len() - 1 {
            assert(entries.drop_last()[i] == entries[i]);
        }
        if all != rest {
            assert(all == rest.push(entries.len() - 1));
            assert(all[all.len() - 1] == entries.len() - 1);
            if rest.contains(i) {
                let k = choose|k: int| 0 <= k < rest.len() && rest[k] == i;
                assert(all[k] == i);
            }
            if all.contains(i) && i != entries.len() - 1 {
                let k = choose|k: int| 0 <= k < all.len() && all[k] == i;
                assert(rest[k] == i);
            }
        }
    }
}

/// A node has a peer that is ready just if some other node can be asked.
pub proof fn law_a_ready_peer_is_another_node(self_id: Seq<char>, peers: Seq<PeerState>, i: int)
    ensures
        0 <= i < peers.len() && peers[i].node_id@ != self_id && peers[i].live && label_of(
            label_views(peers[i].key_values@),
            "draining"@,
        ) != Some("true"@) ==> ready_peer(self_id, peers),
        (forall|j: int|
            0 <= j < peers.len() ==> (#[trigger] peers[j]).node_id@ == self_id || !peers[j].live
                || label_of(label_views(peers[j].key_values@), "draining"@) == Some("true"@))
            ==> !ready_peer(self_id, peers),
{
}

/// A node that looks for a peer gives up after half a minute, and addresses are kept for a
/// tenth of a second.
pub proof fn law_peers_are_waited_for_half_a_minute()
    ensures
        GOSSIP_BOOTSTRAP_GRACE == 30_000_000_000,
        PEER_ADDRESS_CACHE_TTL == 100_000_000,
{
}

} // verus!

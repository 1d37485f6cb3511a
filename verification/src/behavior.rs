//! What the node's network behaviour does with the events it sees: which
//! addresses go to the Kademlia routing table, which peers the peer manager
//! learns, and which requests a transaction is sent in.
use crate::message::TransactionMessage;
use crate::p2p::{PeerManager, PeerManagerView, PeerStorage};
use crate::strmap::{str_set, strs_distinct};
use crate::transaction::strs_view;
use vstd::prelude::*;

verus! {

/// An event of the identify protocol.
pub enum IdentifyEvent {
    /// A peer told us who it is and where it listens.
    Received { peer_id: String, listen_addrs: Vec<String> },
    /// Any other identify event.
    Other,
}

/// An event of the Kademlia protocol.
pub enum KademliaEvent {
    /// The routing table now holds `peer`, reachable at `addresses`.
    RoutingUpdated { peer: String, addresses: Vec<String> },
    /// A query made progress.
    OutboundQueryProgressed,
    /// Any other Kademlia event.
    Other,
}

/// A message of the request/response protocol.
pub enum RequestResponseMessage {
    /// A peer sent us a transaction and waits for our answer.
    Request { request: TransactionMessage },
    /// A peer answered a transaction we sent.
    Response { response: TransactionMessage },
}

/// An event of the request/response protocol.
pub enum RequestResponseEvent {
    Message { peer: String, message: RequestResponseMessage },
    OutboundFailure { peer: String },
    InboundFailure { peer: String },
    ResponseSent { peer: String },
}

/// An event of the node's network behaviour.
pub enum Event {
    Identify(IdentifyEvent),
    Kad(KademliaEvent),
    RequestResponse(RequestResponseEvent),
    ConnectionEstablished { peer_id: String, endpoint: String },
}

/// The views of a sequence of (peer id, address) pairs.
pub open spec fn pairs_view(v: Seq<(String, String)>) -> Seq<(Seq<char>, Seq<char>)> {
    v.map_values(|p: (String, String)| (p.0@, p.1@))
}

/// `peer` paired with each address of `addrs`, in order.
pub open spec fn with_each(peer: Seq<char>, addrs: Seq<Seq<char>>) -> Seq<(Seq<char>, Seq<char>)> {
    addrs.map_values(|a: Seq<char>| (peer, a))
}

/// The (peer id, address) pairs that the behaviour adds to the Kademlia
/// routing table for `event`: every listen address of an identified peer
/// and every address of a routing update.
pub open spec fn kademlia_additions(event: &Event) -> Seq<(Seq<char>, Seq<char>)> {
    match event {
        Event::Identify(IdentifyEvent::Received { peer_id, listen_addrs }) => with_each(
            peer_id@,
            strs_view(listen_addrs@),
        ),
        Event::Kad(KademliaEvent::RoutingUpdated { peer, addresses }) => with_each(
            peer@,
            strs_view(addresses@),
        ),
        _ => Seq::empty(),
    }
}

/// The (peer id, address) pairs that go to the Kademlia routing table when
/// the behaviour runs with a peer manager: the addresses of a routing update
/// and the endpoint of a new connection.
pub open spec fn context_kademlia_additions(event: &Event) -> Seq<(Seq<char>, Seq<char>)> {
    match event {
        Event::Kad(KademliaEvent::RoutingUpdated { peer, addresses }) => with_each(
            peer@,
            strs_view(addresses@),
        ),
        Event::ConnectionEstablished { peer_id, endpoint } => seq![(peer_id@, endpoint@)],
        _ => Seq::empty(),
    }
}

/// The (peer id, address) pairs that the peer manager learns from `event`,
/// in order: the addresses of a routing update, the endpoint of a new
/// connection, the listen addresses of an identified peer.
pub open spec fn context_peer_additions(event: &Event) -> Seq<(Seq<char>, Seq<char>)> {
    match event {
        Event::Kad(KademliaEvent::RoutingUpdated { peer, addresses }) => with_each(
            peer@,
            strs_view(addresses@),
        ),
        Event::ConnectionEstablished { peer_id, endpoint } => seq![(peer_id@, endpoint@)],
        Event::Identify(IdentifyEvent::Received { peer_id, listen_addrs }) => with_each(
            peer_id@,
            strs_view(listen_addrs@),
        ),
        _ => Seq::empty(),
    }
}

/// The peer manager state after learning the pairs of `pairs` in order.
pub open spec fn add_all(pm: PeerManagerView, pairs: Seq<(Seq<char>, Seq<char>)>) -> PeerManagerView
    decreases pairs.len(),
{
    if pairs.len() == 0 {
        pm
    } else {
        add_all(pm, pairs.drop_last()).add_peer(pairs.last().0, pairs.last().1)
    }
}

/// Learning peers never makes the peer manager forget one: after learning
/// the pairs of `pairs`, it knows every peer it knew and every peer of a pair.
pub proof fn lemma_add_all_keeps_peers(pm: PeerManagerView, pairs: Seq<(Seq<char>, Seq<char>)>)
    ensures
        pm.peers.subset_of(add_all(pm, pairs).peers),
        forall|i: int| 0 <= i < pairs.len() ==> add_all(pm, pairs).peers.contains(#[trigger] pairs[i].0),
        add_all(pm, pairs).local_peer_id == pm.local_peer_id,
    decreases pairs.len(),
{
    if pairs.len() > 0 {
        lemma_add_all_keeps_peers(pm, pairs.drop_last());
        assert forall|i: int| 0 <= i < pairs.len() implies add_all(pm, pairs).peers.contains(
            #[trigger] pairs[i].0,
        ) by {
            if i < pairs.len() - 1 {
                assert(pairs.drop_last()[i] == pairs[i]);
            }
        }
    }
}

proof fn lemma_pairs_are_peer_with_each(
    pairs: Seq<(String, String)>,
    peer: Seq<char>,
    addrs: Seq<String>,
)
    requires
        pairs_view(pairs) == with_each(peer, strs_view(addrs)),
    ensures
        pairs.len() == addrs.len(),
        forall|i: int|
            0 <= i < pairs.len() ==> (#[trigger] pairs[i]).0@ == peer && pairs[i].1@ == addrs[i]@,
{
    assert(pairs_view(pairs).len() == pairs.len());
    assert forall|i: int| 0 <= i < pairs.len() implies (#[trigger] pairs[i]).0@ == peer
        && pairs[i].1@ == addrs[i]@ by {
        assert(pairs_view(pairs)[i] == with_each(peer, strs_view(addrs))[i]);
    }
}

/// The behaviour on its own sends every address of an identified peer, and
/// every address of a routing update, to the routing table: one addition per
/// address, in order, each pairing the event's peer with that address; no
/// other event adds anything.
pub proof fn lemma_kademlia_additions_pair_peer_with_each_address(event: &Event)
    ensures
        match event {
            Event::Identify(IdentifyEvent::Received { peer_id, listen_addrs }) => {
                &&& kademlia_additions(event).len() == listen_addrs@.len()
                &&& forall|i: int|
                    0 <= i < listen_addrs@.len() ==> #[trigger] kademlia_additions(event)[i] == (
                        peer_id@,
                        listen_addrs@[i]@,
                    )
            },
            Event::Kad(KademliaEvent::RoutingUpdated { peer, addresses }) => {
                &&& kademlia_additions(event).len() == addresses@.len()
                &&& forall|i: int|
                    0 <= i < addresses@.len() ==> #[trigger] kademlia_additions(event)[i] == (
                        peer@,
                        addresses@[i]@,
                    )
            },
            _ => kademlia_additions(event).len() == 0,
        },
{
}

/// With a peer manager, the routing table gets the event's peer at each
/// address of a routing update (in order, one addition per address) and a
/// newly connected peer at its endpoint; nothing else. These are the same
/// (peer, address) pairs that the peer manager learns from those events.
pub proof fn lemma_context_kademlia_additions_pair_peer_with_address(event: &Event)
    ensures
        match event {
            Event::Kad(KademliaEvent::RoutingUpdated { peer, addresses }) => {
                &&& context_kademlia_additions(event).len() == addresses@.len()
                &&& forall|i: int|
                    0 <= i < addresses@.len() ==> #[trigger] context_kademlia_additions(event)[i] == (
                        peer@,
                        addresses@[i]@,
                    )
                &&& context_kademlia_additions(event) == context_peer_additions(event)
            },
            Event::ConnectionEstablished { peer_id, endpoint } => {
                &&& context_kademlia_additions(event).len() == 1
                &&& context_kademlia_additions(event)[0] == (peer_id@, endpoint@)
                &&& context_kademlia_additions(event) == context_peer_additions(event)
            },
            _ => context_kademlia_additions(event).len() == 0,
        },
{
}

/// Learning one peer at several addresses, one after the other, leaves the
/// peer known at the last of them, and nothing else changed; learning it at
/// no address changes nothing.
pub proof fn lemma_add_all_same_peer(m: PeerManagerView, peer: Seq<char>, addrs: Seq<Seq<char>>)
    ensures
        addrs.len() == 0 ==> add_all(m, with_each(peer, addrs)) == m,
        addrs.len() > 0 ==> add_all(m, with_each(peer, addrs)).peers == m.peers.insert(peer),
        addrs.len() > 0 ==> add_all(m, with_each(peer, addrs)).addresses == m.addresses.insert(
            peer,
            addrs.last(),
        ),
        add_all(m, with_each(peer, addrs)).local_peer_id == m.local_peer_id,
    decreases addrs.len(),
{
    if addrs.len() > 0 {
        let w = addrs.drop_last();
        assert(with_each(peer, addrs).drop_last() =~= with_each(peer, w));
        lemma_add_all_same_peer(m, peer, w);
        let pairs = with_each(peer, addrs);
        assert(pairs.last() == (peer, addrs.last()));
        let before = add_all(m, with_each(peer, w));
        assert(add_all(m, pairs) == before.add_peer(peer, addrs.last()));
        assert(add_all(m, pairs).peers =~= m.peers.insert(peer));
        assert(add_all(m, pairs).addresses =~= m.addresses.insert(peer, addrs.last()));
    } else {
        assert(with_each(peer, addrs) =~= Seq::<(Seq<char>, Seq<char>)>::empty());
    }
}

/// `peer` paired with each address of `addrs`.
pub fn pair_with_each(peer: &String, addrs: &Vec<String>) -> (pairs: Vec<(String, String)>)
    ensures
        pairs_view(pairs@) == with_each(peer@, strs_view(addrs@)),
        pairs@.len() == addrs@.len(),
        forall|i: int|
            0 <= i < pairs@.len() ==> (#[trigger] pairs@[i]).0@ == peer@ && pairs@[i].1@ == addrs@[i]@,
{
    let mut pairs: Vec<(String, String)> = Vec::new();
    let n = addrs.len();
    for i in 0..n
        invariant
            n == addrs@.len(),
            pairs_view(pairs@) == with_each(peer@, strs_view(addrs@)).take(i as int),
    {
        let ghost prev = pairs@;
        assert(pairs_view(prev).len() == prev.len());
        assert(prev.len() == i);
        pairs.push((peer.clone(), addrs[i].clone()));
        assert(pairs@ == prev.push(pairs@.last()));
        assert(pairs_view(pairs@) =~= with_each(peer@, strs_view(addrs@)).take(i + 1)) by {
            assert forall|j: int| 0 <= j < i implies pairs_view(pairs@)[j] == pairs_view(prev)[j] by {
                assert(pairs@[j] == prev[j]);
            }
        }
    }
    assert(with_each(peer@, strs_view(addrs@)).take(n as int) =~= with_each(peer@, strs_view(addrs@)));
    proof {
        lemma_pairs_are_peer_with_each(pairs@, peer@, addrs@);
    }
    pairs
}

/// The (peer id, address) pairs to add to the Kademlia routing table for
/// `event`, as the behaviour does on its own.
pub fn kademlia_additions_for(event: &Event) -> (pairs: Vec<(String, String)>)
    ensures
        pairs_view(pairs@) == kademlia_additions(event),
        match event {
            Event::Identify(IdentifyEvent::Received { peer_id, listen_addrs }) => {
                &&& pairs@.len() == listen_addrs@.len()
                &&& forall|i: int|
                    0 <= i < pairs@.len() ==> (#[trigger] pairs@[i]).0@ == peer_id@ && pairs@[i].1@
                        == listen_addrs@[i]@
            },
            Event::Kad(KademliaEvent::RoutingUpdated { peer, addresses }) => {
                &&& pairs@.len() == addresses@.len()
                &&& forall|i: int|
                    0 <= i < pairs@.len() ==> (#[trigger] pairs@[i]).0@ == peer@ && pairs@[i].1@
                        == addresses@[i]@
            },
            _ => pairs@.len() == 0,
        },
{
    match event {
        Event::Identify(IdentifyEvent::Received { peer_id, listen_addrs }) => pair_with_each(
            peer_id,
            listen_addrs,
        ),
        Event::Kad(KademliaEvent::RoutingUpdated { peer, addresses }) => pair_with_each(peer, addresses),
        _ => {
            let pairs: Vec<(String, String)> = Vec::new();
            assert(pairs_view(pairs@) =~= Seq::empty());
            pairs
        },
    }
}

/// Teaches `pm` the pairs of `pairs` in order; returns, for each, what the
/// peer file should hold right after it.
pub fn add_peers(pm: &mut PeerManager, pairs: &Vec<(String, String)>) -> (snapshots: Vec<PeerStorage>)
    ensures
        final(pm)@ == add_all(old(pm)@, pairs_view(pairs@)),
        snapshots@.len() == pairs@.len(),
        forall|i: int|
            0 <= i < snapshots@.len() ==> #[trigger] snapshots@[i]@ == add_all(
                old(pm)@,
                pairs_view(pairs@).take(i + 1),
            ).storage(),
{
    let ghost start = pm@;
    let mut snapshots: Vec<PeerStorage> = Vec::new();
    let n = pairs.len();
    assert(pairs_view(pairs@).take(0) =~= Seq::<(Seq<char>, Seq<char>)>::empty());
    for i in 0..n
        invariant
            n == pairs@.len(),
            pm@ == add_all(start, pairs_view(pairs@).take(i as int)),
            snapshots@.len() == i,
            forall|j: int|
                0 <= j < i ==> #[trigger] snapshots@[j]@ == add_all(
                    start,
                    pairs_view(pairs@).take(j + 1),
                ).storage(),
    {
        let snapshot = pm.add_peer_with_addr(pairs[i].0.clone(), pairs[i].1.clone());
        assert(pairs_view(pairs@).take(i + 1).drop_last() =~= pairs_view(pairs@).take(i as int));
        snapshots.push(snapshot);
    }
    assert(pairs_view(pairs@).take(n as int) =~= pairs_view(pairs@));
    snapshots
}

/// What the behaviour does with `event` when it runs with a peer manager.
pub struct ContextUpdates {
    /// (peer id, address) pairs to add to the Kademlia routing table, in order.
    pub kademlia_additions: Vec<(String, String)>,
    /// What the peer file should hold after each peer the manager learned.
    pub snapshots: Vec<PeerStorage>,
}

/// The decisions of the behaviour with a peer manager on `event`: routing
/// updates and new connections go to the Kademlia table, and routing
/// updates, new connections and identified listen addresses to `pm`.
pub fn context_updates(pm: &mut PeerManager, event: &Event) -> (updates: ContextUpdates)
    ensures
        pairs_view(updates.kademlia_additions@) == context_kademlia_additions(event),
        match event {
            Event::Kad(KademliaEvent::RoutingUpdated { peer, addresses }) => {
                &&& updates.kademlia_additions@.len() == addresses@.len()
                &&& forall|i: int|
                    0 <= i < addresses@.len() ==> (#[trigger] updates.kademlia_additions@[i]).0@
                        == peer@ && updates.kademlia_additions@[i].1@ == addresses@[i]@
                &&& addresses@.len() > 0 ==> final(pm)@.peers == old(pm)@.peers.insert(peer@)
                    && final(pm)@.addresses == old(pm)@.addresses.insert(
                    peer@,
                    addresses@.last()@,
                )
                &&& addresses@.len() == 0 ==> final(pm)@ == old(pm)@
            },
            Event::ConnectionEstablished { peer_id, endpoint } => {
                &&& updates.kademlia_additions@.len() == 1
                &&& updates.kademlia_additions@[0].0@ == peer_id@
                &&& updates.kademlia_additions@[0].1@ == endpoint@
                &&& final(pm)@.peers == old(pm)@.peers.insert(peer_id@)
                &&& final(pm)@.addresses == old(pm)@.addresses.insert(peer_id@, endpoint@)
            },
            Event::Identify(IdentifyEvent::Received { peer_id, listen_addrs }) => {
                &&& updates.kademlia_additions@.len() == 0
                &&& listen_addrs@.len() > 0 ==> final(pm)@.peers == old(pm)@.peers.insert(peer_id@)
                    && final(pm)@.addresses == old(pm)@.addresses.insert(
                    peer_id@,
                    listen_addrs@.last()@,
                )
                &&& listen_addrs@.len() == 0 ==> final(pm)@ == old(pm)@
            },
            _ => {
                &&& updates.kademlia_additions@.len() == 0
                &&& final(pm)@ == old(pm)@
            },
        },
        final(pm)@ == add_all(old(pm)@, context_peer_additions(event)),
        updates.snapshots@.len() == context_peer_additions(event).len(),
        forall|i: int|
            0 <= i < updates.snapshots@.len() ==> #[trigger] updates.snapshots@[i]@ == add_all(
                old(pm)@,
                context_peer_additions(event).take(i + 1),
            ).storage(),
{
    match event {
        Event::Kad(KademliaEvent::RoutingUpdated { peer, addresses }) => {
            let ghost start = pm@;
            let pairs = pair_with_each(peer, addresses);
            let snapshots = add_peers(pm, &pairs);
            proof {
                lemma_add_all_same_peer(start, peer@, strs_view(addresses@));
                if addresses@.len() > 0 {
                    assert(strs_view(addresses@).last() == addresses@.last()@);
                }
            }
            ContextUpdates { kademlia_additions: pairs, snapshots }
        },
        Event::ConnectionEstablished { peer_id, endpoint } => {
            let ghost start = pm@;
            let mut pairs: Vec<(String, String)> = Vec::new();
            pairs.push((peer_id.clone(), endpoint.clone()));
            assert(pairs_view(pairs@) =~= seq![(peer_id@, endpoint@)]);
            let snapshots = add_peers(pm, &pairs);
            proof {
                assert(seq![(peer_id@, endpoint@)] =~= with_each(peer_id@, seq![endpoint@]));
                lemma_add_all_same_peer(start, peer_id@, seq![endpoint@]);
            }
            ContextUpdates { kademlia_additions: pairs, snapshots }
        },
        Event::Identify(IdentifyEvent::Received { peer_id, listen_addrs }) => {
            let ghost start = pm@;
            let pairs = pair_with_each(peer_id, listen_addrs);
            let snapshots = add_peers(pm, &pairs);
            proof {
                lemma_add_all_same_peer(start, peer_id@, strs_view(listen_addrs@));
                if listen_addrs@.len() > 0 {
                    assert(strs_view(listen_addrs@).last() == listen_addrs@.last()@);
                }
            }
            let none: Vec<(String, String)> = Vec::new();
            assert(pairs_view(none@) =~= Seq::empty());
            ContextUpdates { kademlia_additions: none, snapshots }
        },
        _ => {
            let none: Vec<(String, String)> = Vec::new();
            let snapshots: Vec<PeerStorage> = Vec::new();
            assert(pairs_view(none@) =~= Seq::empty());
            ContextUpdates { kademlia_additions: none, snapshots }
        },
    }
}

/// One request per peer, in the order of `peers`, each carrying `message`.
pub fn requests_for_peers(peers: &Vec<String>, message: &TransactionMessage) -> (requests: Vec<
    (String, TransactionMessage),
>)
    ensures
        requests@.len() == peers@.len(),
        forall|i: int|
            0 <= i < requests@.len() ==> (#[trigger] requests@[i]).0@ == peers@[i]@
                && requests@[i].1@ == message@,
{
    let mut requests: Vec<(String, TransactionMessage)> = Vec::new();
    let n = peers.len();
    for i in 0..n
        invariant
            n == peers@.len(),
            requests@.len() == i,
            forall|j: int|
                0 <= j < i ==> (#[trigger] requests@[j]).0@ == peers@[j]@ && requests@[j].1@
                    == message@,
    {
        requests.push((peers[i].clone(), message.clone()));
    }
    requests
}

/// The requests in which the behaviour sends `message` to every peer that
/// `pm` knows: one per peer, none when there is no peer.
pub fn send_transaction_to_peers(pm: &PeerManager, message: &TransactionMessage) -> (requests: Vec<
    (String, TransactionMessage),
>)
    ensures
        requests@.len() == pm@.peers.len(),
        strs_distinct(requests@.map_values(|r: (String, TransactionMessage)| r.0)),
        str_set(requests@.map_values(|r: (String, TransactionMessage)| r.0)) == pm@.peers,
        forall|i: int| 0 <= i < requests@.len() ==> (#[trigger] requests@[i]).1@ == message@,
{
    let peers = pm.get_peers();
    let requests = requests_for_peers(&peers, message);
    proof {
        let targets = requests@.map_values(|r: (String, TransactionMessage)| r.0);
        assert(targets.len() == peers@.len());
        assert forall|i: int| 0 <= i < targets.len() implies targets[i]@ == peers@[i]@ by {
            assert(targets[i] == requests@[i].0);
        }
        assert(str_set(targets) =~= str_set(peers@)) by {
            assert forall|s: Seq<char>| crate::strmap::has_str(targets, s) == crate::strmap::has_str(peers@, s) by {
                if crate::strmap::has_str(targets, s) {
                    let j = choose|j: int| 0 <= j < targets.len() && targets[j]@ == s;
                    assert(peers@[j]@ == s);
                }
                if crate::strmap::has_str(peers@, s) {
                    let j = choose|j: int| 0 <= j < peers@.len() && peers@[j]@ == s;
                    assert(targets[j]@ == s);
                }
            }
        }
        crate::strmap::lemma_distinct_len(peers@);
    }
    requests
}

} // verus!

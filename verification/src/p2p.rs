//! The set of known peers and their addresses, and the form in which it is
//! kept on disk.
use crate::strmap::{
    fold_pairs, has_str, keys_distinct, map_insert, pair_map, set_insert, str_set, strs_distinct,
};
use crate::transaction::clone_strings;
use vstd::prelude::*;
use vstd::string::*;

verus! {

/// The base58 text of the peer id that `text` denotes, if `text` parses as one.
pub uninterp spec fn peer_id_text(text: Seq<char>) -> Option<Seq<char>>;

/// The text of the multiaddress that `text` denotes, if `text` parses as one.
pub uninterp spec fn multiaddr_text(text: Seq<char>) -> Option<Seq<char>>;

/// Calls `<libp2p::PeerId as FromStr>::from_str` on `text` and, on success,
/// `PeerId::to_base58` on the result. Claimed: the outcome is
/// `peer_id_text(text)`, a function of the text alone; and a base58 text so
/// obtained parses back to itself (`from_str` is base58 decoding followed by
/// `PeerId::from_bytes`, which takes back exactly what `to_base58` encoded).
#[verifier::external_body]
fn parse_peer_id(text: &String) -> (r: Option<String>)
    ensures
        match r {
            Some(s) => peer_id_text(text@) == Some(s@) && peer_id_text(s@) == Some(s@),
            None => peer_id_text(text@) is None,
        },
{
    match text.parse::<libp2p::PeerId>() {
        Ok(id) => Some(id.to_base58()),
        Err(_) => None,
    }
}

/// Calls `<libp2p::Multiaddr as FromStr>::from_str` on `text` and, on
/// success, `to_string` (its `Display`) on the result. Claimed: the outcome
/// is `multiaddr_text(text)`, a function of the text alone.
#[verifier::external_body]
fn parse_multiaddr(text: &String) -> (r: Option<String>)
    ensures
        match r {
            Some(s) => multiaddr_text(text@) == Some(s@),
            None => multiaddr_text(text@) is None,
        },
{
    match text.parse::<libp2p::Multiaddr>() {
        Ok(addr) => Some(addr.to_string()),
        Err(_) => None,
    }
}

/// A copy of every pair of `v`, in order.
pub fn clone_pairs(v: &Vec<(String, String)>) -> (res: Vec<(String, String)>)
    ensures
        res@ == v@,
{
    let mut res: Vec<(String, String)> = Vec::new();
    let n = v.len();
    for i in 0..n
        invariant
            n == v@.len(),
            res@ == v@.take(i as int),
    {
        let pair = (v[i].0.clone(), v[i].1.clone());
        res.push(pair);
        assert(res@ =~= v@.take(i + 1));
    }
    assert(v@.take(n as int) =~= v@);
    res
}

/// The name of the file in which the peers known to `peer_id` are kept.
pub fn storage_file_name(peer_id: &String) -> (name: String)
    ensures
        name@ == "peers_"@ + peer_id@ + ".json"@,
{
    let mut name = String::from_str("peers_");
    name.append(peer_id.as_str());
    name.append(".json");
    name
}

/// The content of the peer file: peer ids, and an address per peer id, as text.
pub struct PeerStorage {
    peers: Vec<String>,
    addresses: Vec<(String, String)>,
}

/// The mathematical value of a `PeerStorage`.
pub struct PeerStorageView {
    pub peers: Set<Seq<char>>,
    pub addresses: Map<Seq<char>, Seq<char>>,
}

impl View for PeerStorage {
    type V = PeerStorageView;

    closed spec fn view(&self) -> PeerStorageView {
        PeerStorageView { peers: str_set(self.peers@), addresses: pair_map(self.addresses@) }
    }
}

impl Default for PeerStorage {
    /// An empty storage.
    fn default() -> (storage: Self)
        ensures
            storage@.peers == Set::<Seq<char>>::empty(),
            storage@.addresses == Map::<Seq<char>, Seq<char>>::empty(),
    {
        let storage = PeerStorage { peers: Vec::new(), addresses: Vec::new() };
        assert(storage@.peers =~= Set::<Seq<char>>::empty());
        assert(storage@.addresses =~= Map::<Seq<char>, Seq<char>>::empty());
        storage
    }
}

impl PeerStorage {
    #[verifier::type_invariant]
    spec fn well_formed(self) -> bool {
        &&& strs_distinct(self.peers@)
        &&& keys_distinct(self.addresses@)
    }

    /// The storage holding the given peers and, for addresses, the map built
    /// by inserting the pairs in order.
    pub fn from_entries(peers: Vec<String>, addresses: Vec<(String, String)>) -> (storage: Self)
        ensures
            storage@.peers == str_set(peers@),
            storage@.addresses == fold_pairs(addresses@),
    {
        let mut set: Vec<String> = Vec::new();
        let n = peers.len();
        assert(str_set(set@) =~= str_set(peers@.take(0)));
        for i in 0..n
            invariant
                n == peers@.len(),
                strs_distinct(set@),
                str_set(set@) == str_set(peers@.take(i as int)),
        {
            set_insert(&mut set, peers[i].clone());
            let ghost pre = peers@.take(i as int);
            let ghost post = peers@.take(i + 1);
            assert forall|t: Seq<char>| #[trigger] has_str(post, t) <==> (has_str(pre, t) || t
                == peers@[i as int]@) by {
                if has_str(post, t) {
                    let j = choose|j: int| 0 <= j < post.len() && post[j]@ == t;
                    if j < i {
                        assert(pre[j]@ == t);
                    }
                }
                if has_str(pre, t) {
                    let j = choose|j: int| 0 <= j < pre.len() && pre[j]@ == t;
                    assert(post[j]@ == t);
                }
                if t == peers@[i as int]@ {
                    assert(post[i as int]@ == t);
                }
            }
            assert(str_set(set@) =~= str_set(peers@.take(i + 1)));
        }
        assert(peers@.take(n as int) =~= peers@);
        let mut map: Vec<(String, String)> = Vec::new();
        let m = addresses.len();
        assert(pair_map(map@) =~= fold_pairs(addresses@.take(0)));
        for i in 0..m
            invariant
                m == addresses@.len(),
                keys_distinct(map@),
                pair_map(map@) == fold_pairs(addresses@.take(i as int)),
        {
            map_insert(&mut map, addresses[i].0.clone(), addresses[i].1.clone());
            assert(addresses@.take(i + 1).drop_last() =~= addresses@.take(i as int));
        }
        assert(addresses@.take(m as int) =~= addresses@);
        PeerStorage { peers: set, addresses: map }
    }

    /// The stored peer ids, each once.
    pub fn peers(&self) -> (peers: &Vec<String>)
        ensures
            strs_distinct(peers@),
            str_set(peers@) == self@.peers,
    {
        proof {
            use_type_invariant(self);
        }
        &self.peers
    }

    /// The stored (peer id, address) pairs, one per peer id.
    pub fn addresses(&self) -> (addresses: &Vec<(String, String)>)
        ensures
            keys_distinct(addresses@),
            pair_map(addresses@) == self@.addresses,
    {
        proof {
            use_type_invariant(self);
        }
        &self.addresses
    }
}

/// A stored pair (`key`, `value`) yields the entry (`k`, `a`) of the peer
/// manager: the key parses as peer id `k` and the value as address `a`.
pub open spec fn entry_parses_to(key: Seq<char>, value: Seq<char>, k: Seq<char>, a: Seq<char>) -> bool {
    peer_id_text(key) == Some(k) && multiaddr_text(value) == Some(a)
}

/// One of the first `n` pairs of `pairs` yields the entry (`k`, `a`).
pub open spec fn seen_entry(pairs: Seq<(String, String)>, n: int, k: Seq<char>, a: Seq<char>) -> bool {
    exists|j: int| 0 <= j < n && entry_parses_to(pairs[j].0@, pairs[j].1@, k, a)
}

/// The peer ids of the stored texts that parse as one.
pub open spec fn parsed_peers(stored: Set<Seq<char>>) -> Set<Seq<char>> {
    Set::new(|k: Seq<char>| exists|p: Seq<char>| stored.contains(p) && peer_id_text(p) == Some(k))
}

/// Some stored pair yields the entry (`k`, `a`).
pub open spec fn stored_entry(stored: Map<Seq<char>, Seq<char>>, k: Seq<char>, a: Seq<char>) -> bool {
    exists|p: Seq<char>| #[trigger] stored.contains_key(p) && entry_parses_to(p, stored[p], k, a)
}

/// `addresses` is what loading `stored` gives: one entry for each peer id that
/// some stored pair yields (with both texts parsing), its address taken
/// from such a pair.
pub open spec fn loaded_addresses(
    stored: Map<Seq<char>, Seq<char>>,
    addresses: Map<Seq<char>, Seq<char>>,
) -> bool {
    &&& forall|k: Seq<char>, a: Seq<char>| #[trigger]
        stored_entry(stored, k, a) ==> addresses.contains_key(k)
    &&& forall|k: Seq<char>| #[trigger]
        addresses.contains_key(k) ==> stored_entry(stored, k, addresses[k])
}

/// Every text of the storage reads back as itself: peer ids parse to the same
/// base58 text and addresses to the same multiaddress text (as they do for
/// what `PeerId::to_base58` and `Multiaddr`'s `Display` wrote).
pub open spec fn canonical(stored: PeerStorageView) -> bool {
    &&& forall|p: Seq<char>| #[trigger] stored.peers.contains(p) ==> peer_id_text(p) == Some(p)
    &&& forall|p: Seq<char>| #[trigger]
        stored.addresses.contains_key(p) ==> peer_id_text(p) == Some(p) && multiaddr_text(
            stored.addresses[p],
        ) == Some(stored.addresses[p])
}

/// Loading a peer file whose texts read back as themselves yields exactly
/// the peers and addresses that were saved.
pub proof fn lemma_reload_restores(
    stored: PeerStorageView,
    peers: Set<Seq<char>>,
    addresses: Map<Seq<char>, Seq<char>>,
)
    requires
        canonical(stored),
        peers == parsed_peers(stored.peers),
        loaded_addresses(stored.addresses, addresses),
    ensures
        peers == stored.peers,
        addresses == stored.addresses,
{
    assert forall|k: Seq<char>| #[trigger] peers.contains(k) == stored.peers.contains(k) by {
        if stored.peers.contains(k) {
            assert(peer_id_text(k) == Some(k));
        }
    }
    assert(peers =~= stored.peers);
    assert forall|k: Seq<char>| #[trigger] addresses.contains_key(k) == stored.addresses.contains_key(k) by {
        if stored.addresses.contains_key(k) {
            assert(stored_entry(stored.addresses, k, stored.addresses[k]));
        }
        if addresses.contains_key(k) {
            assert(stored_entry(stored.addresses, k, addresses[k]));
        }
    }
    assert forall|k: Seq<char>| #[trigger] addresses.contains_key(k) implies addresses[k]
        == stored.addresses[k] by {
        assert(stored_entry(stored.addresses, k, addresses[k]));
        let p = choose|p: Seq<char>| #[trigger]
            stored.addresses.contains_key(p) && entry_parses_to(p, stored.addresses[p], k, addresses[k]);
        assert(peer_id_text(p) == Some(p));
    }
    assert(addresses =~= stored.addresses);
}

/// Every peer id of `peers` reads back as itself.
pub open spec fn ids_read_back(peers: Set<Seq<char>>) -> bool {
    forall|p: Seq<char>| #[trigger] peers.contains(p) ==> peer_id_text(p) == Some(p)
}

/// Peers survive a restart: loading the peer ids a peer manager saved gives
/// back exactly its peers, when each of them reads back as itself (as every
/// id loaded by `PeerManager::new`, and every `PeerId::to_base58` text, does).
pub proof fn lemma_restart_keeps_peers(peers: Set<Seq<char>>, loaded: Set<Seq<char>>)
    requires
        ids_read_back(peers),
        loaded == parsed_peers(peers),
    ensures
        loaded == peers,
{
    assert forall|k: Seq<char>| #[trigger] loaded.contains(k) == peers.contains(k) by {
        if peers.contains(k) {
            assert(peer_id_text(k) == Some(k));
        }
    }
    assert(loaded =~= peers);
}

/// Learning a peer whose id and address read back as themselves keeps every
/// text of the peer file reading back as itself, so that the whole state
/// still survives a restart (`lemma_reload_restores`).
pub proof fn lemma_add_peer_keeps_canonical(m: PeerManagerView, peer_id: Seq<char>, addr: Seq<char>)
    requires
        canonical(m.storage()),
        peer_id_text(peer_id) == Some(peer_id),
        multiaddr_text(addr) == Some(addr),
    ensures
        canonical(m.add_peer(peer_id, addr).storage()),
{
    let s = m.add_peer(peer_id, addr).storage();
    assert forall|p: Seq<char>| #[trigger] s.peers.contains(p) implies peer_id_text(p) == Some(p) by {
        if p != peer_id {
            assert(m.storage().peers.contains(p));
        }
    }
    assert forall|p: Seq<char>| #[trigger] s.addresses.contains_key(p) implies peer_id_text(p) == Some(
        p,
    ) && multiaddr_text(s.addresses[p]) == Some(s.addresses[p]) by {
        if p != peer_id {
            assert(m.storage().addresses.contains_key(p));
        }
    }
}

/// Learning that `peer_id` is at `addr` adds that peer and sets its
/// address, and leaves every other peer, and the address known for every
/// other peer, as it was.
pub proof fn lemma_add_peer_changes_only_that_peer(
    m: PeerManagerView,
    peer_id: Seq<char>,
    addr: Seq<char>,
)
    ensures
        m.add_peer(peer_id, addr).peers.contains(peer_id),
        m.add_peer(peer_id, addr).addresses.contains_key(peer_id),
        m.add_peer(peer_id, addr).addresses[peer_id] == addr,
        m.add_peer(peer_id, addr).local_peer_id == m.local_peer_id,
        forall|q: Seq<char>|
            q != peer_id ==> (#[trigger] m.add_peer(peer_id, addr).peers.contains(q) == m.peers.contains(
                q,
            )),
        forall|q: Seq<char>|
            q != peer_id ==> (#[trigger] m.add_peer(peer_id, addr).addresses.contains_key(q)
                == m.addresses.contains_key(q)),
        forall|q: Seq<char>|
            q != peer_id && m.addresses.contains_key(q) ==> #[trigger] m.add_peer(
                peer_id,
                addr,
            ).addresses[q] == m.addresses[q],
{
}

/// A peer keeps the address it was learned at when another peer is learned
/// afterwards.
pub proof fn lemma_later_peer_keeps_earlier_address(
    m: PeerManagerView,
    p1: Seq<char>,
    a1: Seq<char>,
    p2: Seq<char>,
    a2: Seq<char>,
)
    requires
        p1 != p2,
    ensures
        m.add_peer(p1, a1).add_peer(p2, a2).addresses.contains_key(p1),
        m.add_peer(p1, a1).add_peer(p2, a2).addresses[p1] == a1,
        m.add_peer(p1, a1).add_peer(p2, a2).peers.contains(p1),
{
    lemma_add_peer_changes_only_that_peer(m, p1, a1);
    lemma_add_peer_changes_only_that_peer(m.add_peer(p1, a1), p2, a2);
}

/// The peers a node knows, with an address for each.
pub struct PeerManager {
    peers: Vec<String>,
    peer_addresses: Vec<(String, String)>,
    local_peer_id: String,
}

/// The mathematical value of a `PeerManager`.
pub struct PeerManagerView {
    pub peers: Set<Seq<char>>,
    pub addresses: Map<Seq<char>, Seq<char>>,
    pub local_peer_id: Seq<char>,
}

impl PeerManagerView {
    /// What the peer file holds for this state.
    pub open spec fn storage(self) -> PeerStorageView {
        PeerStorageView { peers: self.peers, addresses: self.addresses }
    }

    /// The state after learning that `peer_id` is reachable at `addr`.
    pub open spec fn add_peer(self, peer_id: Seq<char>, addr: Seq<char>) -> PeerManagerView {
        PeerManagerView {
            peers: self.peers.insert(peer_id),
            addresses: self.addresses.insert(peer_id, addr),
            local_peer_id: self.local_peer_id,
        }
    }
}

impl View for PeerManager {
    type V = PeerManagerView;

    closed spec fn view(&self) -> PeerManagerView {
        PeerManagerView {
            peers: str_set(self.peers@),
            addresses: pair_map(self.peer_addresses@),
            local_peer_id: self.local_peer_id@,
        }
    }
}

impl PeerManager {
    #[verifier::type_invariant]
    spec fn well_formed(self) -> bool {
        &&& strs_distinct(self.peers@)
        &&& keys_distinct(self.peer_addresses@)
    }

    /// The peer manager of node `local_peer_id`, loaded from `storage`: the
    /// stored peer ids and the stored (peer id, address) pairs that parse;
    /// the others are dropped.
    pub fn new(local_peer_id: String, storage: &PeerStorage) -> (pm: Self)
        ensures
            pm@.local_peer_id == local_peer_id@,
            pm@.peers == parsed_peers(storage@.peers),
            loaded_addresses(storage@.addresses, pm@.addresses),
            forall|p: Seq<char>| #[trigger] pm@.peers.contains(p) ==> peer_id_text(p) == Some(p),
            forall|p: Seq<char>| #[trigger]
                pm@.addresses.contains_key(p) ==> peer_id_text(p) == Some(p),
    {
        let stored = storage.peers();
        let mut peers: Vec<String> = Vec::new();
        let n = stored.len();
        assert(str_set(peers@) =~= Set::new(
            |k: Seq<char>| exists|j: int| 0 <= j < 0 && peer_id_text(stored@[j]@) == Some(k),
        ));
        for i in 0..n
            invariant
                n == stored@.len(),
                strs_distinct(peers@),
                str_set(peers@) == Set::new(
                    |k: Seq<char>| exists|j: int| 0 <= j < i && peer_id_text(stored@[j]@) == Some(k),
                ),
                forall|p: Seq<char>| #[trigger] str_set(peers@).contains(p) ==> peer_id_text(p) == Some(p),
        {
            let ghost before = str_set(peers@);
            match parse_peer_id(&stored[i]) {
                Some(id) => {
                    set_insert(&mut peers, id);
                },
                None => {},
            }
            assert(str_set(peers@) =~= Set::new(
                |k: Seq<char>| exists|j: int| 0 <= j < i + 1 && peer_id_text(stored@[j]@) == Some(k),
            )) by {
                assert forall|k: Seq<char>|
                    (exists|j: int| 0 <= j < i + 1 && peer_id_text(stored@[j]@) == Some(k)) implies
                    #[trigger] str_set(peers@).contains(k) by {
                    let j = choose|j: int| 0 <= j < i + 1 && peer_id_text(stored@[j]@) == Some(k);
                    if j < i {
                        assert(before.contains(k));
                    }
                }
            }
        }
        assert(str_set(peers@) =~= parsed_peers(storage@.peers)) by {
            assert forall|k: Seq<char>| #[trigger] parsed_peers(storage@.peers).contains(k) implies str_set(
                peers@,
            ).contains(k) by {
                let p = choose|p: Seq<char>| storage@.peers.contains(p) && peer_id_text(p) == Some(k);
                assert(has_str(stored@, p));
                let j = choose|j: int| 0 <= j < stored@.len() && stored@[j]@ == p;
                assert(peer_id_text(stored@[j]@) == Some(k));
            }
            assert forall|k: Seq<char>| #[trigger] str_set(peers@).contains(k) implies parsed_peers(
                storage@.peers,
            ).contains(k) by {
                let j = choose|j: int| 0 <= j < n && peer_id_text(stored@[j]@) == Some(k);
                assert(has_str(stored@, stored@[j]@));
                assert(storage@.peers.contains(stored@[j]@));
            }
        }
        let pairs = storage.addresses();
        let ghost smap = storage@.addresses;
        let mut addresses: Vec<(String, String)> = Vec::new();
        let m = pairs.len();
        let mut i: usize = 0;
        while i < m
            invariant
                i <= m,
                m == pairs@.len(),
                keys_distinct(pairs@),
                pair_map(pairs@) == smap,
                keys_distinct(addresses@),
                forall|k: Seq<char>, a: Seq<char>| #[trigger]
                    seen_entry(pairs@, i as int, k, a) ==> pair_map(addresses@).contains_key(k),
                forall|k: Seq<char>| #[trigger]
                    pair_map(addresses@).contains_key(k) ==> stored_entry(
                        smap,
                        k,
                        pair_map(addresses@)[k],
                    ),
                forall|p: Seq<char>| #[trigger]
                    pair_map(addresses@).contains_key(p) ==> peer_id_text(p) == Some(p),
            decreases m - i,
        {
            let ghost before = pair_map(addresses@);
            match parse_peer_id(&pairs[i].0) {
                Some(id) => {
                    match parse_multiaddr(&pairs[i].1) {
                        Some(addr) => {
                            let ghost kv = id@;
                            let ghost av = addr@;
                            map_insert(&mut addresses, id, addr);
                            proof {
                                crate::strmap::lemma_pair_map_at(pairs@, i as int);
                                assert(smap.contains_key(pairs@[i as int].0@));
                                assert(entry_parses_to(
                                    pairs@[i as int].0@,
                                    smap[pairs@[i as int].0@],
                                    kv,
                                    av,
                                ));
                                assert(stored_entry(smap, kv, av));
                            }
                        },
                        None => {},
                    }
                },
                None => {},
            }
            assert forall|k: Seq<char>, a: Seq<char>| #[trigger]
                seen_entry(pairs@, i + 1, k, a) implies pair_map(addresses@).contains_key(k) by {
                let j = choose|j: int|
                    0 <= j < i + 1 && entry_parses_to(pairs@[j].0@, pairs@[j].1@, k, a);
                if j < i {
                    assert(seen_entry(pairs@, i as int, k, a));
                    assert(before.contains_key(k));
                }
            }
            i = i + 1;
        }
        assert(loaded_addresses(smap, pair_map(addresses@))) by {
            assert forall|k: Seq<char>, a: Seq<char>| #[trigger]
                stored_entry(smap, k, a) implies pair_map(addresses@).contains_key(k) by {
                let p = choose|p: Seq<char>| #[trigger]
                    smap.contains_key(p) && entry_parses_to(p, smap[p], k, a);
                let j = choose|j: int| 0 <= j < pairs@.len() && pairs@[j].0@ == p;
                crate::strmap::lemma_pair_map_at(pairs@, j);
                assert(entry_parses_to(pairs@[j].0@, pairs@[j].1@, k, a));
                assert(seen_entry(pairs@, m as int, k, a));
            }
        }
        PeerManager { peers, peer_addresses: addresses, local_peer_id }
    }
    /// The id of the node that owns this peer manager.
    pub fn local_peer_id(&self) -> (id: &String)
        ensures
            id@ == self@.local_peer_id,
    {
        &self.local_peer_id
    }

    /// What the peer file should hold for the current state.
    pub fn to_storage(&self) -> (storage: PeerStorage)
        ensures
            storage@ == self@.storage(),
    {
        proof {
            use_type_invariant(self);
        }
        PeerStorage { peers: clone_strings(&self.peers), addresses: clone_pairs(&self.peer_addresses) }
    }

    /// Records that `peer_id` is a peer reachable at `addr` (replacing any
    /// address known for it), and returns what the peer file should now hold.
    pub fn add_peer_with_addr(&mut self, peer_id: String, addr: String) -> (snapshot: PeerStorage)
        ensures
            final(self)@ == old(self)@.add_peer(peer_id@, addr@),
            final(self)@.peers == old(self)@.peers.insert(peer_id@),
            final(self)@.addresses == old(self)@.addresses.insert(peer_id@, addr@),
            final(self)@.local_peer_id == old(self)@.local_peer_id,
            snapshot@.peers == final(self)@.peers,
            snapshot@.addresses == final(self)@.addresses,
            snapshot@ == final(self)@.storage(),
    {
        proof {
            use_type_invariant(&*self);
        }
        let mut peers: Vec<String> = Vec::new();
        std::mem::swap(&mut peers, &mut self.peers);
        set_insert(&mut peers, peer_id.clone());
        self.peers = peers;
        let mut addresses: Vec<(String, String)> = Vec::new();
        std::mem::swap(&mut addresses, &mut self.peer_addresses);
        map_insert(&mut addresses, peer_id, addr);
        self.peer_addresses = addresses;
        self.to_storage()
    }

    /// The known peers, each once.
    pub fn get_peers(&self) -> (peers: Vec<String>)
        ensures
            strs_distinct(peers@),
            str_set(peers@) == self@.peers,
    {
        proof {
            use_type_invariant(self);
        }
        clone_strings(&self.peers)
    }

    /// The address known for `peer_id`, if any.
    pub fn get_peer_addr(&self, peer_id: &String) -> (addr: Option<&String>)
        ensures
            match addr {
                Some(a) => self@.addresses.contains_key(peer_id@) && a@ == self@.addresses[peer_id@],
                None => !self@.addresses.contains_key(peer_id@),
            },
    {
        proof {
            use_type_invariant(self);
        }
        match crate::strmap::find_key(&self.peer_addresses, peer_id) {
            Some(i) => {
                proof {
                    crate::strmap::lemma_pair_map_at(self.peer_addresses@, i as int);
                }
                Some(&self.peer_addresses[i].1)
            },
            None => None,
        }
    }
}

} // verus!

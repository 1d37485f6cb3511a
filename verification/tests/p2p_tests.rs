use narwhal::p2p::{storage_file_name, PeerManager, PeerStorage};

fn new_peer_id() -> String {
    libp2p::identity::Keypair::generate_ed25519().public().to_peer_id().to_base58()
}

fn strings(v: &[&str]) -> Vec<String> {
    v.iter().map(|s| s.to_string()).collect()
}

fn sorted(mut v: Vec<String>) -> Vec<String> {
    v.sort();
    v
}

#[test]
fn storage_file_name_is_peers_id_json() {
    assert_eq!(storage_file_name(&"12D3KooW".to_string()), "peers_12D3KooW.json");
    assert_eq!(storage_file_name(&String::new()), "peers_.json");
}

#[test]
fn default_storage_is_empty() {
    let s = PeerStorage::default();
    assert!(s.peers().is_empty());
    assert!(s.addresses().is_empty());
}

#[test]
fn storage_from_entries_drops_repeats_and_keeps_last_address() {
    let s = PeerStorage::from_entries(
        strings(&["a", "b", "a"]),
        vec![
            ("a".to_string(), "x".to_string()),
            ("b".to_string(), "y".to_string()),
            ("a".to_string(), "z".to_string()),
        ],
    );
    assert_eq!(sorted(s.peers().clone()), strings(&["a", "b"]));
    let mut pairs = s.addresses().clone();
    pairs.sort();
    assert_eq!(
        pairs,
        vec![("a".to_string(), "z".to_string()), ("b".to_string(), "y".to_string())]
    );
}

#[test]
fn new_peer_manager_keeps_only_parsable_entries() {
    let p1 = new_peer_id();
    let p2 = new_peer_id();
    let storage = PeerStorage::from_entries(
        vec![p1.clone(), "not a peer id".to_string()],
        vec![
            (p1.clone(), "/ip4/127.0.0.1/tcp/8000".to_string()),
            (p2.clone(), "not an address".to_string()),
            ("bad id".to_string(), "/ip4/10.0.0.1/tcp/1".to_string()),
        ],
    );
    let local = new_peer_id();
    let pm = PeerManager::new(local.clone(), &storage);
    assert_eq!(pm.local_peer_id(), &local);
    assert_eq!(pm.get_peers(), vec![p1.clone()]);
    assert_eq!(pm.get_peer_addr(&p1), Some(&"/ip4/127.0.0.1/tcp/8000".to_string()));
    assert_eq!(pm.get_peer_addr(&p2), None);
    assert_eq!(pm.get_peer_addr(&"bad id".to_string()), None);
}

#[test]
fn add_peer_records_peer_and_address() {
    let mut pm = PeerManager::new(new_peer_id(), &PeerStorage::default());
    let p = new_peer_id();
    let snapshot = pm.add_peer_with_addr(p.clone(), "/ip4/1.2.3.4/tcp/5".to_string());
    assert_eq!(pm.get_peers(), vec![p.clone()]);
    assert_eq!(pm.get_peer_addr(&p), Some(&"/ip4/1.2.3.4/tcp/5".to_string()));
    assert_eq!(snapshot.peers(), &vec![p.clone()]);
    assert_eq!(snapshot.addresses(), &vec![(p.clone(), "/ip4/1.2.3.4/tcp/5".to_string())]);
}

#[test]
fn adding_known_peer_replaces_address_only() {
    let mut pm = PeerManager::new(new_peer_id(), &PeerStorage::default());
    let p = new_peer_id();
    pm.add_peer_with_addr(p.clone(), "/ip4/1.1.1.1/tcp/1".to_string());
    let snapshot = pm.add_peer_with_addr(p.clone(), "/ip4/2.2.2.2/tcp/2".to_string());
    assert_eq!(pm.get_peers(), vec![p.clone()]);
    assert_eq!(pm.get_peer_addr(&p), Some(&"/ip4/2.2.2.2/tcp/2".to_string()));
    assert_eq!(snapshot.addresses().len(), 1);
}

#[test]
fn saved_peers_load_back_unchanged() {
    let mut pm = PeerManager::new(new_peer_id(), &PeerStorage::default());
    let p1 = new_peer_id();
    let p2 = new_peer_id();
    pm.add_peer_with_addr(p1.clone(), "/ip4/127.0.0.1/tcp/8000".to_string());
    pm.add_peer_with_addr(p2.clone(), "/ip4/10.0.0.2/tcp/4001".to_string());
    let storage = pm.to_storage();
    let loaded = PeerManager::new(pm.local_peer_id().clone(), &storage);
    assert_eq!(sorted(loaded.get_peers()), sorted(pm.get_peers()));
    assert_eq!(loaded.get_peer_addr(&p1), pm.get_peer_addr(&p1));
    assert_eq!(loaded.get_peer_addr(&p2), pm.get_peer_addr(&p2));
}

#[test]
fn loaded_peer_ids_read_back_as_themselves() {
    let p = new_peer_id();
    let storage = PeerStorage::from_entries(vec![p.clone()], vec![]);
    let pm = PeerManager::new(new_peer_id(), &storage);
    for id in pm.get_peers() {
        let again = PeerManager::new(new_peer_id(), &PeerStorage::from_entries(vec![id.clone()], vec![]));
        assert_eq!(again.get_peers(), vec![id]);
    }
}

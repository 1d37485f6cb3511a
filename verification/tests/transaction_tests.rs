use narwhal::message::TransactionMessage;
use narwhal::transaction::{hash_preimage, hex_encode, Transaction};

fn strings(v: &[&str]) -> Vec<String> {
    v.iter().map(|s| s.to_string()).collect()
}

#[test]
fn new_transaction_id_is_sha256_hex_of_preimage() {
    let t = Transaction::new("hello".to_string(), vec![]);
    assert_eq!(t.id, "c6402d15196824a049ad87c371a5047a673535c2ac8607e2bfa483f7591cc27a");
    assert_eq!(t.data, "hello");
    assert!(t.parents.is_empty());
}

#[test]
fn new_transaction_id_covers_parents_in_order() {
    let t = Transaction::new("b".to_string(), strings(&["a"]));
    assert_eq!(t.id, "99deff970531d72b548cca8adc415ed10502758e178b0fc8fd2219977e7aa499");
    let u = Transaction::new("x".to_string(), strings(&["p1", "p2"]));
    assert_eq!(u.id, "2ea2e82d5815040b62afaae99d0acbac646d29fa80d793a4dcfed3b3403bb4ec");
    assert_eq!(u.parents, strings(&["p1", "p2"]));
}

#[test]
fn empty_transaction_hashes_zero_length_field() {
    let t = Transaction::new(String::new(), vec![]);
    assert_eq!(t.id, "af5570f5a1810b7af78caf4bc70a660f0df51e42baf91d4de5b2328de0e83dfc");
}

#[test]
fn transaction_id_is_64_lower_hex_digits() {
    let t = Transaction::new("test transaction 1".to_string(), vec![]);
    assert_eq!(t.id, "ea23092e64d52882493b56f7a5c6d7e966a3ddc8af6eb7fac270d0ea43873503");
    assert_eq!(t.id.len(), 64);
    assert!(t.id.chars().all(|c| "0123456789abcdef".contains(c)));
}

#[test]
fn same_contents_give_same_id() {
    let a = Transaction::new("d".to_string(), strings(&["p"]));
    let b = Transaction::new("d".to_string(), strings(&["p"]));
    assert_eq!(a.id, b.id);
    let c = Transaction::new("d".to_string(), strings(&["q"]));
    assert_ne!(a.id, c.id);
}

#[test]
fn hash_preimage_prefixes_each_part_with_its_length() {
    let bytes = hash_preimage(&"x".to_string(), &strings(&["p1"]));
    assert_eq!(bytes, vec![0, 0, 0, 0, 0, 0, 0, 1, b'x', 0, 0, 0, 0, 0, 0, 0, 2, b'p', b'1']);
    assert_eq!(hash_preimage(&"x".to_string(), &vec![]), vec![0, 0, 0, 0, 0, 0, 0, 1, b'x']);
    assert_eq!(hash_preimage(&String::new(), &vec![]), vec![0; 8]);
}

#[test]
fn hex_encode_two_digits_per_byte() {
    assert_eq!(hex_encode(&[0x0a, 0x14, 0x1e]), "0a141e");
    assert_eq!(hex_encode(&[0x00, 0xff, 0x9c]), "00ff9c");
    assert_eq!(hex_encode(&[]), "");
}

#[test]
fn transaction_clone_keeps_fields() {
    let t = Transaction::new("c".to_string(), strings(&["r"]));
    let u = t.clone();
    assert_eq!(t.id, u.id);
    assert_eq!(t.data, u.data);
    assert_eq!(t.parents, u.parents);
}

#[test]
fn message_from_transaction_copies_fields() {
    let t = Transaction::new("data".to_string(), strings(&["p"]));
    let id = t.id.clone();
    let m = TransactionMessage::from_transaction(t);
    assert_eq!(m.transaction_id, id);
    assert_eq!(m.transaction_data, "data");
    assert_eq!(m.parents, strings(&["p"]));
}

#[test]
fn transaction_from_message_derives_id_again() {
    let m = TransactionMessage {
        transaction_id: "not the real id".to_string(),
        transaction_data: "hello".to_string(),
        parents: vec![],
    };
    let t = Transaction::from_message(&m);
    assert_eq!(t.id, "c6402d15196824a049ad87c371a5047a673535c2ac8607e2bfa483f7591cc27a");
    assert_eq!(t.data, "hello");
}

#[test]
fn message_round_trip_rebuilds_same_transaction() {
    let t = Transaction::new("root".to_string(), strings(&["a", "b"]));
    let m = TransactionMessage::from_transaction(t.clone());
    let u = Transaction::from_message(&m);
    assert_eq!(u.id, t.id);
    assert_eq!(u.data, t.data);
    assert_eq!(u.parents, t.parents);
}

#[test]
fn message_clone_keeps_fields() {
    let m = TransactionMessage {
        transaction_id: "i".to_string(),
        transaction_data: "d".to_string(),
        parents: strings(&["p"]),
    };
    let n = m.clone();
    assert_eq!(n.transaction_id, "i");
    assert_eq!(n.transaction_data, "d");
    assert_eq!(n.parents, strings(&["p"]));
}

#[test]
fn moving_text_between_data_and_parents_changes_the_id() {
    let a = Transaction::new("a".to_string(), strings(&["bc"]));
    let b = Transaction::new("abc".to_string(), vec![]);
    assert_eq!(a.id, "3fafa1cf2f19a7c1129beb20cf0983f73a489a221fc0dd2f16d1be292d089205");
    assert_eq!(b.id, "c3494ca1a2cf8eeb8a11ded316fb55b83c3bbbedb6313cd50415251e5d09e12f");
    assert_ne!(a.id, b.id);
    let c = Transaction::new("a".to_string(), strings(&["b", "c"]));
    assert_ne!(a.id, c.id);
    assert_ne!(
        hash_preimage(&"a".to_string(), &strings(&["bc"])),
        hash_preimage(&"abc".to_string(), &vec![])
    );
}

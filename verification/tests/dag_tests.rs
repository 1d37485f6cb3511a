use narwhal::dag::DAG;
use narwhal::transaction::Transaction;

fn strings(v: &[&str]) -> Vec<String> {
    v.iter().map(|s| s.to_string()).collect()
}

#[test]
fn new_dag_is_empty() {
    let dag = DAG::new();
    assert!(dag.get_all_transactions().is_empty());
    assert!(dag.validate_parents(&[]));
    assert!(!dag.validate_parents(&strings(&["missing"])));
}

#[test]
fn add_root_then_child() {
    let mut dag = DAG::new();
    let root = Transaction::new("root".to_string(), vec![]);
    let root_id = root.id.clone();
    assert!(dag.add_transaction(root));
    assert!(dag.contains(&root_id));
    let child = Transaction::new("child".to_string(), vec![root_id.clone()]);
    let child_id = child.id.clone();
    assert_eq!(root_id, "b738d25741629c31e50f76a261ac1429d2e10b51d065ca9ce3d76335b3047fe7");
    assert_eq!(child_id, "3b4903ad4fc0ebec218cbb43d1376ab4d827b69a18c19928647f13c4999b0575");
    assert!(dag.validate_parents(&[root_id.clone()]));
    assert!(dag.add_transaction(child));
    assert_eq!(dag.get_all_transactions().len(), 2);
    let stored = dag.get(&child_id).unwrap();
    assert_eq!(stored.data, "child");
    assert_eq!(stored.parents, vec![root_id]);
}

#[test]
fn transaction_with_missing_parent_is_rejected() {
    let mut dag = DAG::new();
    let orphan = Transaction::new("orphan".to_string(), strings(&["nowhere"]));
    let id = orphan.id.clone();
    assert!(!dag.add_transaction(orphan));
    assert!(!dag.contains(&id));
    assert!(dag.get(&id).is_none());
    assert!(dag.get_all_transactions().is_empty());
}

#[test]
fn validate_parents_needs_every_parent() {
    let mut dag = DAG::new();
    let a = Transaction::new("a".to_string(), vec![]);
    let a_id = a.id.clone();
    dag.add_transaction(a);
    assert!(dag.validate_parents(&[a_id.clone()]));
    assert!(!dag.validate_parents(&[a_id.clone(), "other".to_string()]));
    assert!(dag.validate_parents(&[a_id.clone(), a_id]));
}

#[test]
fn adding_same_transaction_twice_changes_nothing() {
    let mut dag = DAG::new();
    let t = Transaction::new("same".to_string(), vec![]);
    assert!(dag.add_transaction(t.clone()));
    assert!(dag.add_transaction(t.clone()));
    let all = dag.get_all_transactions();
    assert_eq!(all.len(), 1);
    assert_eq!(all[0].id, t.id);
}

#[test]
fn transaction_with_known_id_replaces_stored_one() {
    let mut dag = DAG::new();
    let first = Transaction { id: "k".to_string(), data: "one".to_string(), parents: vec![] };
    let second = Transaction { id: "k".to_string(), data: "two".to_string(), parents: vec![] };
    assert!(dag.add_transaction(first));
    assert!(dag.add_transaction(second));
    assert_eq!(dag.get_all_transactions().len(), 1);
    assert_eq!(dag.get(&"k".to_string()).unwrap().data, "two");
}

#[test]
fn every_stored_transaction_has_its_parents_stored() {
    let mut dag = DAG::new();
    let a = Transaction::new("a".to_string(), vec![]);
    let b = Transaction::new("b".to_string(), vec![a.id.clone()]);
    let c = Transaction::new("c".to_string(), vec![a.id.clone(), b.id.clone()]);
    let d = Transaction::new("d".to_string(), strings(&["missing"]));
    dag.add_transaction(a);
    dag.add_transaction(b);
    dag.add_transaction(c);
    dag.add_transaction(d);
    let all = dag.get_all_transactions();
    assert_eq!(all.len(), 3);
    for t in &all {
        assert!(dag.validate_parents(&t.parents));
    }
}

#[test]
fn valid_parents_stay_valid_after_more_additions() {
    let mut dag = DAG::new();
    let a = Transaction::new("a".to_string(), vec![]);
    let parents = vec![a.id.clone()];
    dag.add_transaction(a);
    assert!(dag.validate_parents(&parents));
    dag.add_transaction(Transaction::new("b".to_string(), parents.clone()));
    dag.add_transaction(Transaction::new("c".to_string(), strings(&["missing"])));
    assert!(dag.validate_parents(&parents));
}

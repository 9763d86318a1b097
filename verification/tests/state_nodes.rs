use afrolink::crypto::hash::Hash32;
use afrolink::primitives::codec::{decode_exact, Encode};
use afrolink::state::nodes::{commit_tree, load_tree, path_of, MemoryNodes, Node};
use afrolink::state::smt::SparseMerkleTree;

fn tree_with(n: usize) -> SparseMerkleTree {
    let mut t = SparseMerkleTree::new();
    for i in 0..n {
        t.insert(
            format!("account/{i}").as_bytes(),
            format!("balance:{i}").into_bytes(),
        );
    }
    t
}

#[test]
fn a_committed_tree_reloads_to_the_same_root() {
    let tree = tree_with(64);
    let mut nodes = MemoryNodes::new();
    let (root, _) = commit_tree(&tree, &mut nodes);
    assert_eq!(
        root,
        tree.root(),
        "the stored root must match the computed one"
    );

    let reloaded = load_tree(root, &nodes).expect("all nodes present");
    assert_eq!(reloaded.root(), tree.root());
    for i in 0..64 {
        let key = format!("account/{i}");
        assert_eq!(
            reloaded.get(key.as_bytes()),
            tree.get(key.as_bytes()),
            "value for {key} must survive the round trip"
        );
    }
}

#[test]
fn changing_one_key_writes_only_a_handful_of_nodes() {
    let mut tree = tree_with(512);
    let mut nodes = MemoryNodes::new();
    let (_, first) = commit_tree(&tree, &mut nodes);
    assert_eq!(
        first.written, first.visited,
        "the first commit writes everything"
    );

    tree.insert(b"account/100", b"balance:changed".to_vec());
    let (_, second) = commit_tree(&tree, &mut nodes);

    assert!(
        second.written < 40,
        "one changed key should touch ~log2(512) nodes, wrote {}",
        second.written
    );
    assert!(
        second.written < first.written / 10,
        "second commit wrote {} of {} — structural sharing is not working",
        second.written,
        first.written
    );
}

#[test]
fn an_unchanged_tree_writes_nothing_at_all() {
    let tree = tree_with(128);
    let mut nodes = MemoryNodes::new();
    commit_tree(&tree, &mut nodes);
    let (_, again) = commit_tree(&tree, &mut nodes);
    assert_eq!(
        again.written, 0,
        "re-committing identical state must be free"
    );
}

#[test]
fn historical_versions_stay_addressable() {
    let mut tree = tree_with(32);
    let mut nodes = MemoryNodes::new();
    let (old_root, _) = commit_tree(&tree, &mut nodes);

    tree.insert(b"account/5", b"balance:updated".to_vec());
    let (new_root, _) = commit_tree(&tree, &mut nodes);
    assert_ne!(old_root, new_root);

    let old = load_tree(old_root, &nodes).expect("old version still reachable");
    assert_eq!(old.get(b"account/5"), Some(&b"balance:5".to_vec()));

    let new = load_tree(new_root, &nodes).expect("new version reachable");
    assert_eq!(new.get(b"account/5"), Some(&b"balance:updated".to_vec()));
}

#[test]
fn a_missing_node_is_detected_rather_than_producing_partial_state() {
    let tree = tree_with(16);
    let mut nodes = MemoryNodes::new();
    let (root, _) = commit_tree(&tree, &mut nodes);

    let victim = nodes
        .iter_raw()
        .into_iter()
        .nth(3)
        .map(|(h, _)| h).expect("has nodes");
    let mut damaged = MemoryNodes::new();
    for (h, raw) in nodes.iter_raw() {
        if h != victim {
            damaged.put_raw(h, raw.clone());
        }
    }

    assert!(
        load_tree(root, &damaged).is_none(),
        "a gap must be reported"
    );
}

#[test]
fn an_empty_tree_round_trips() {
    let tree = SparseMerkleTree::new();
    let mut nodes = MemoryNodes::new();
    let (root, stats) = commit_tree(&tree, &mut nodes);
    assert_eq!(root, Hash32::zero());
    assert_eq!(stats.written, 0);
    assert_eq!(load_tree(root, &nodes).expect("empty loads").root(), Hash32::zero());
}

#[test]
fn proofs_still_verify_against_a_reloaded_tree() {
    let tree = tree_with(100);
    let mut nodes = MemoryNodes::new();
    let (root, _) = commit_tree(&tree, &mut nodes);
    let reloaded = load_tree(root, &nodes).expect("loads");

    let key = b"account/42";
    let proof = reloaded.prove(key);
    assert!(proof.verify(root, key, Some(b"balance:42")));

    let absent = b"account/9999";
    assert!(reloaded.prove(absent).verify(root, absent, None));
}

#[test]
fn nodes_round_trip_through_the_codec() {
    let leaf = Node::Leaf {
        key_hash: path_of(b"k"),
        value: b"v".to_vec(),
    };
    let internal = Node::Internal {
        left: leaf.hash(),
        right: Hash32::zero(),
    };
    for node in [leaf, internal] {
        assert_eq!(decode_exact::<Node>(&node.to_bytes()), Ok(node));
    }
}

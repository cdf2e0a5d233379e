use bhwi::merkle::{root_from_proof, MerkleTree};
use bhwi::store::{DelegatedStore, StoreError};

fn unhex(s: &str) -> Vec<u8> {
    (0..s.len()).step_by(2).map(|i| u8::from_str_radix(&s[i..i + 2], 16).unwrap()).collect()
}

fn three_leaves() -> Vec<Vec<u8>> {
    vec![b"alpha".to_vec(), b"beta".to_vec(), b"gamma".to_vec()]
}

fn leaf_proof_request(root: &[u8], index: u64) -> Vec<u8> {
    let mut req = vec![0x10];
    req.extend_from_slice(root);
    req.extend_from_slice(&index.to_be_bytes());
    req
}

fn store_with_tree() -> (DelegatedStore, Vec<u8>) {
    let tree = MerkleTree::new(three_leaves());
    let root = tree.root();
    let mut store = DelegatedStore::new();
    store.add_tree(tree);
    (store, root)
}

#[test]
fn leaf_two_of_three_with_valid_proof() {
    let (store, root) = store_with_tree();
    let resp = store.execute(&leaf_proof_request(&root, 2)).unwrap();
    let count = resp[0] as usize;
    let path: Vec<Vec<u8>> = (0..count).map(|k| resp[1 + 32 * k..33 + 32 * k].to_vec()).collect();
    let leaf = resp[1 + 32 * count..].to_vec();
    assert_eq!(leaf, b"gamma".to_vec());
    assert_eq!(count, 1);
    assert_eq!(root_from_proof(&leaf, 2, 3, &path), root);
}

#[test]
fn leaf_proof_unknown_tree() {
    let (store, _) = store_with_tree();
    let req = leaf_proof_request(&[0u8; 32], 0);
    assert!(matches!(store.execute(&req), Err(StoreError::TreeNotFound)));
}

#[test]
fn leaf_proof_index_out_of_range() {
    let (store, root) = store_with_tree();
    assert!(matches!(store.execute(&leaf_proof_request(&root, 3)), Err(StoreError::LeafOutOfRange)));
    assert!(matches!(
        store.execute(&leaf_proof_request(&root, u64::MAX)),
        Err(StoreError::LeafOutOfRange)
    ));
}

#[test]
fn leaf_proof_too_long_for_a_frame() {
    let mut store = DelegatedStore::new();
    let tree = MerkleTree::new(vec![vec![7u8; 250], vec![8u8; 250]]);
    let root = tree.root();
    store.add_tree(tree);
    assert!(matches!(store.execute(&leaf_proof_request(&root, 0)), Err(StoreError::ResponseTooLong)));
}

#[test]
fn leaf_index_found_and_missing() {
    let (store, root) = store_with_tree();
    let tree = MerkleTree::new(vec![b"beta".to_vec()]);
    let beta_hash = tree.root();
    let mut req = vec![0x11];
    req.extend_from_slice(&root);
    req.extend_from_slice(&beta_hash);
    assert_eq!(store.execute(&req).unwrap(), vec![1, 0, 0, 0, 0, 0, 0, 0, 1]);
    let mut req = vec![0x11];
    req.extend_from_slice(&root);
    req.extend_from_slice(&[0u8; 32]);
    assert_eq!(store.execute(&req).unwrap(), vec![0]);
}

#[test]
fn preimage_found_and_missing() {
    let mut store = DelegatedStore::new();
    store.add_preimage(b"hello".to_vec());
    let mut req = vec![0x08];
    req.extend(unhex("2cf24dba5fb0a30e26e83b2ac5b9e29e1b161e5c1fa7425e73043362938b9824"));
    assert_eq!(store.execute(&req).unwrap(), b"hello".to_vec());
    let mut req = vec![0x08];
    req.extend_from_slice(&[1u8; 32]);
    assert!(matches!(store.execute(&req), Err(StoreError::PreimageNotFound)));
}

#[test]
fn yield_answers_nothing() {
    let store = DelegatedStore::new();
    assert_eq!(store.execute(&vec![0x32]).unwrap(), Vec::<u8>::new());
    assert_eq!(store.execute(&vec![0x32, 0x05]).unwrap(), Vec::<u8>::new());
}

#[test]
fn unknown_tag_and_malformed_requests() {
    let store = DelegatedStore::new();
    assert!(matches!(store.execute(&vec![0x40]), Err(StoreError::UnknownCommand(0x40))));
    assert!(matches!(store.execute(&vec![]), Err(StoreError::Malformed)));
    assert!(matches!(store.execute(&vec![0x08, 0x00]), Err(StoreError::Malformed)));
    assert!(matches!(store.execute(&vec![0x10; 40]), Err(StoreError::Malformed)));
    assert!(matches!(store.execute(&vec![0x11; 64]), Err(StoreError::Malformed)));
}

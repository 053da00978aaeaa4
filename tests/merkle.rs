use coinbase_puzzle::merkle::{pedersen_hash, PedersenMerkleRoot};

#[test]
fn root_size_is_32() {
    assert_eq!(PedersenMerkleRoot::size(), 32);
}

#[test]
fn root_of_no_leaves_is_zero_tree() {
    let empty = PedersenMerkleRoot::from_leaves(&[]);
    let zeros = PedersenMerkleRoot::from_leaves(&[[0u8; 32]; 4]);
    assert_eq!(empty, zeros);
}

#[test]
fn root_depends_on_leaves_and_order() {
    let a = [1u8; 32];
    let b = [2u8; 32];
    let ab = PedersenMerkleRoot::from_leaves(&[a, b]);
    let ba = PedersenMerkleRoot::from_leaves(&[b, a]);
    assert_ne!(ab, ba);
    assert_eq!(ab, PedersenMerkleRoot::from_leaves(&[a, b]));
    assert_eq!(&ab.0[8..], &[0u8; 24]);
}

#[test]
fn root_matches_hand_computation() {
    let leaf = [3u8; 32];
    let l0 = pedersen_hash(&leaf);
    let z = pedersen_hash(&[0u8; 32]);
    let node = |l: u64, r: u64| {
        let mut buf = l.to_le_bytes().to_vec();
        buf.extend_from_slice(&r.to_le_bytes());
        pedersen_hash(&buf)
    };
    let root = node(node(l0, z), node(z, z));
    let expected = PedersenMerkleRoot::from_field(root);
    assert_eq!(PedersenMerkleRoot::from_leaves(&[leaf]), expected);
    assert_eq!(&expected.0[..8], &root.to_le_bytes());
}

#[test]
fn pedersen_hash_is_linear_in_bytes() {
    assert_eq!(pedersen_hash(&[0, 0, 0]), 0);
    let one = pedersen_hash(&[1]);
    let two = pedersen_hash(&[2]);
    assert_eq!(two, coinbase_puzzle::field::fadd(one, one));
}

#[test]
fn root_hex_string() {
    let mut bytes = [0u8; 32];
    bytes[0] = 0xab;
    bytes[31] = 0x0f;
    let root = PedersenMerkleRoot(bytes);
    let s = root.to_hex_string();
    assert_eq!(s.len(), 64);
    assert!(s.starts_with("ab00"));
    assert!(s.ends_with("0f"));
}

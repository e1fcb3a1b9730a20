use zosh::crypto::blake3;
use zosh::crypto::merkle::{hroot, root, tree};

fn h(data: &[u8]) -> [u8; 32] {
    *::blake3::hash(data).as_bytes()
}

fn b2(data: &[u8]) -> [u8; 32] {
    let hash = blake2b_simd::Params::new().hash_length(32).hash(data);
    let mut out = [0u8; 32];
    out.copy_from_slice(hash.as_bytes());
    out
}

fn node(left: &[u8], right: &[u8]) -> Vec<u8> {
    let mut v = b"node".to_vec();
    v.extend_from_slice(left);
    v.extend_from_slice(right);
    v
}

#[test]
fn blake3_matches_the_crate() {
    assert_eq!(blake3(b"zosh"), h(b"zosh"));
    assert_ne!(blake3(b"zosh").to_vec(), b"zosh".to_vec());
}

#[test]
fn empty_tree_is_zero() {
    assert_eq!(tree(vec![], blake3), vec![vec![vec![0u8; 32]]]);
    assert_eq!(root(vec![]), [0u8; 32]);
    assert_eq!(hroot(vec![], blake3), [0u8; 32]);
}

#[test]
fn root_uses_32_byte_blake2b() {
    // BLAKE2b with a 32-byte digest of the empty input
    let empty = hex::decode("0e5751c026e543b2e8ab2eb06099daa1d1e5df47778f7787faab45cdf12fe3a8").unwrap();
    assert_eq!(root(vec![vec![]]).to_vec(), empty);
}

#[test]
fn single_leaf_is_hashed() {
    let leaf = b"only".to_vec();
    assert_eq!(tree(vec![leaf.clone()], blake3), vec![vec![h(&leaf).to_vec()]]);
    assert_eq!(root(vec![leaf.clone()]), b2(&leaf));
    assert_ne!(root(vec![leaf.clone()]), h(&leaf));
}

#[test]
fn two_leaves_pair_with_node_tag() {
    let a = b"a".to_vec();
    let b = b"b".to_vec();
    let expected = h(&node(&a, &b));
    assert_eq!(tree(vec![a.clone(), b.clone()], blake3), vec![vec![expected.to_vec()]]);
    assert_eq!(root(vec![a.clone(), b.clone()]), b2(&node(&a, &b)));
}

#[test]
fn odd_leaf_is_carried_up() {
    let a = b"a".to_vec();
    let b = b"b".to_vec();
    let c = b"c".to_vec();
    let ab = h(&node(&a, &b)).to_vec();
    let top = h(&node(&ab, &c)).to_vec();
    let t = tree(vec![a.clone(), b.clone(), c.clone()], blake3);
    assert_eq!(t, vec![vec![ab.clone(), c.clone()], vec![top.clone()]]);
    assert_eq!(t[1][0], top);
    let ab2 = b2(&node(&a, &b)).to_vec();
    assert_eq!(root(vec![a, b, c.clone()]), b2(&node(&ab2, &c)));
}

#[test]
fn five_leaves_build_three_layers() {
    let leaves: Vec<Vec<u8>> = (0u8..5).map(|i| vec![i; 3]).collect();
    let t = tree(leaves.clone(), blake3);
    assert_eq!(t.len(), 3);
    assert_eq!(t[0].len(), 3);
    assert_eq!(t[1].len(), 2);
    assert_eq!(t[2].len(), 1);
    assert_eq!(t[0][2], leaves[4]);
    assert_eq!(t[1][1], leaves[4]);
    assert_eq!(t[2][0], h(&node(&t[1][0], &t[1][1])).to_vec());
    assert_eq!(root(leaves.clone()), hroot(leaves, b2));
}

fn xor_hash(data: &[u8]) -> [u8; 32] {
    let mut out = [0u8; 32];
    for (i, b) in data.iter().enumerate() {
        out[i % 32] ^= *b;
    }
    out
}

#[test]
fn hroot_uses_the_given_hash() {
    let a = vec![1u8, 2, 3];
    let b = vec![4u8];
    let expected = xor_hash(&node(&a, &b));
    assert_eq!(hroot(vec![a.clone(), b.clone()], xor_hash), expected);
    assert_ne!(hroot(vec![a.clone(), b.clone()], xor_hash), root(vec![a, b]));
}

use ream_lib::hash::{hash_bytes, hash_pair, pad_hash, Hash32};
use ream_lib::multiproof::{generate, Multiproof};
use ream_lib::proof_check::verify;
use ream_lib::tree::{MerkleError, MerkleTree};
use sha2::Digest;

fn leaf(tag: u8) -> Hash32 {
    let mut h = [0u8; 32];
    h[0] = tag;
    h[31] = tag.wrapping_mul(7).wrapping_add(1);
    h
}

fn eight_leaves() -> Vec<Hash32> {
    (0u8..8).map(leaf).collect()
}

fn sha(bytes: &[u8]) -> Hash32 {
    sha2::Sha256::digest(bytes).into()
}

fn sha_pair(l: &Hash32, r: &Hash32) -> Hash32 {
    let mut buf = Vec::new();
    buf.extend_from_slice(l);
    buf.extend_from_slice(r);
    sha(&buf)
}

fn claims(leaves: &[Hash32], depth: u32, targets: &[u64]) -> Vec<(u64, Hash32)> {
    targets.iter().map(|t| (*t, leaves[(*t - (1u64 << depth)) as usize])).collect()
}

#[test]
fn hash_bytes_is_sha256() {
    let empty: Vec<u8> = Vec::new();
    let expected: [u8; 32] = [
        0xe3, 0xb0, 0xc4, 0x42, 0x98, 0xfc, 0x1c, 0x14, 0x9a, 0xfb, 0xf4, 0xc8, 0x99, 0x6f, 0xb9,
        0x24, 0x27, 0xae, 0x41, 0xe4, 0x64, 0x9b, 0x93, 0x4c, 0xa4, 0x95, 0x99, 0x1b, 0x78, 0x52,
        0xb8, 0x55,
    ];
    assert_eq!(hash_bytes(&empty), expected);
    let abc: Vec<u8> = vec![b'a', b'b', b'c'];
    assert_eq!(hash_bytes(&abc)[0], 0xba);
    assert_eq!(hash_bytes(&abc)[31], 0xad);
    assert_ne!(&hash_bytes(&abc)[..3], &abc[..]);
}

#[test]
fn hash_pair_hashes_the_concatenation() {
    let l = leaf(1);
    let r = leaf(2);
    assert_eq!(hash_pair(&l, &r), sha_pair(&l, &r));
    assert_ne!(hash_pair(&l, &r), hash_pair(&r, &l));
}

#[test]
fn pad_hash_is_hash_of_zero_leaf() {
    assert_eq!(pad_hash(), sha(&[0u8; 32]));
    assert_ne!(pad_hash(), [0u8; 32]);
}

#[test]
fn scenario_two_unrelated_leaves_at_depth_three() {
    let leaves = eight_leaves();
    let tree = MerkleTree::build(&leaves, 3).unwrap();
    let targets: Vec<u64> = vec![8 + 2, 8 + 5];
    let proof = generate(&tree, &targets, 3).unwrap();
    assert_eq!(proof.indices, vec![4, 7, 11, 12]);
    assert_eq!(proof.hashes.len(), 4);
    assert_eq!(proof.hashes[0], tree.node_at(4).unwrap());
    assert_eq!(proof.hashes[1], tree.node_at(7).unwrap());
    assert_eq!(proof.hashes[2], leaves[3]);
    assert_eq!(proof.hashes[3], leaves[4]);
    let claimed = vec![(10u64, leaves[2]), (13u64, leaves[5])];
    assert!(verify(&tree.root(), &claimed, &proof, 3));
    let mut forged = leaves[2];
    forged[0] ^= 1;
    let tampered = vec![(10u64, forged), (13u64, leaves[5])];
    assert!(!verify(&tree.root(), &tampered, &proof, 3));
}

#[test]
fn sibling_targets_share_the_path_above_them() {
    let leaves = eight_leaves();
    let tree = MerkleTree::build(&leaves, 3).unwrap();
    let both = generate(&tree, &vec![10, 11], 3).unwrap();
    assert_eq!(both.indices, vec![3, 4]);
    let left = generate(&tree, &vec![10], 3).unwrap();
    assert_eq!(left.indices, vec![3, 4, 11]);
    let right = generate(&tree, &vec![11], 3).unwrap();
    assert_eq!(right.indices, vec![3, 4, 10]);
    assert!(verify(&tree.root(), &claims(&leaves, 3, &[10, 11]), &both, 3));
    assert!(verify(&tree.root(), &claims(&leaves, 3, &[11, 10]), &both, 3));
}

#[test]
fn all_leaves_targeted_need_no_hash() {
    let leaves = eight_leaves();
    let tree = MerkleTree::build(&leaves, 3).unwrap();
    let targets: Vec<u64> = (8..16).collect();
    let proof = generate(&tree, &targets, 3).unwrap();
    assert!(proof.indices.is_empty());
    assert!(proof.hashes.is_empty());
    assert!(verify(&tree.root(), &claims(&leaves, 3, &targets), &proof, 3));
}

#[test]
fn repeated_and_unordered_targets_are_one_set() {
    let leaves = eight_leaves();
    let tree = MerkleTree::build(&leaves, 3).unwrap();
    let a = generate(&tree, &vec![13, 10, 13, 10], 3).unwrap();
    let b = generate(&tree, &vec![10, 13], 3).unwrap();
    assert_eq!(a, b);
}

#[test]
fn depth_zero_proof_is_empty() {
    let one = vec![leaf(9)];
    let tree = MerkleTree::build(&one, 0).unwrap();
    let proof = generate(&tree, &vec![1], 0).unwrap();
    assert!(proof.indices.is_empty());
    assert!(verify(&tree.root(), &vec![(1, one[0])], &proof, 0));
    assert!(!verify(&tree.root(), &vec![(1, leaf(8))], &proof, 0));
}

#[test]
fn generate_fails_as_documented() {
    let leaves = eight_leaves();
    let tree = MerkleTree::build(&leaves, 3).unwrap();
    assert_eq!(generate(&tree, &Vec::new(), 3).err(), Some(MerkleError::EmptyTargetSet));
    assert_eq!(generate(&tree, &vec![7], 3).err(), Some(MerkleError::IndexOutOfRange));
    assert_eq!(generate(&tree, &vec![16], 3).err(), Some(MerkleError::IndexOutOfRange));
    assert_eq!(generate(&tree, &vec![0], 3).err(), Some(MerkleError::IndexOutOfRange));
    assert_eq!(generate(&tree, &vec![10, 1], 3).err(), Some(MerkleError::IndexOutOfRange));
    assert_eq!(generate(&tree, &vec![10], 2).err(), Some(MerkleError::InvalidDepth));
    assert_eq!(generate(&tree, &vec![4], 2).err(), Some(MerkleError::InvalidDepth));
    assert_eq!(generate(&tree, &Vec::new(), 4).err(), Some(MerkleError::InvalidDepth));
    assert!(generate(&tree, &vec![8], 3).is_ok());
    assert!(generate(&tree, &vec![15], 3).is_ok());
}

#[test]
fn every_target_set_of_a_depth_three_tree_verifies() {
    let leaves = eight_leaves();
    let tree = MerkleTree::build(&leaves, 3).unwrap();
    let root = tree.root();
    for mask in 1u32..256 {
        let targets: Vec<u64> = (0..8).filter(|b| mask & (1 << b) != 0).map(|b| 8 + b).collect();
        let proof = generate(&tree, &targets, 3).unwrap();
        for k in 0..proof.indices.len() {
            assert_eq!(proof.hashes[k], tree.node_at(proof.indices[k]).unwrap());
            assert!(!targets.contains(&proof.indices[k]));
            if k > 0 {
                assert!(proof.indices[k - 1] < proof.indices[k]);
            }
        }
        assert!(verify(&root, &claims(&leaves, 3, &targets), &proof, 3));
    }
}

#[test]
fn padded_leaves_can_be_targets() {
    let leaves: Vec<Hash32> = (0u8..5).map(leaf).collect();
    let tree = MerkleTree::build(&leaves, 3).unwrap();
    let proof = generate(&tree, &vec![9, 14], 3).unwrap();
    let claimed = vec![(9u64, leaves[1]), (14u64, pad_hash())];
    assert!(verify(&tree.root(), &claimed, &proof, 3));
    let wrong = vec![(9u64, leaves[1]), (14u64, [0u8; 32])];
    assert!(!verify(&tree.root(), &wrong, &proof, 3));
}

#[test]
fn any_flipped_bit_of_a_claimed_value_is_caught() {
    let leaves = eight_leaves();
    let tree = MerkleTree::build(&leaves, 3).unwrap();
    let root = tree.root();
    let targets = vec![9u64, 12, 15];
    let proof = generate(&tree, &targets, 3).unwrap();
    let honest = claims(&leaves, 3, &targets);
    assert!(verify(&root, &honest, &proof, 3));
    for k in 0..honest.len() {
        for bit in 0..256 {
            let mut forged = honest.clone();
            forged[k].1[bit / 8] ^= 1 << (bit % 8);
            assert!(!verify(&root, &forged, &proof, 3));
        }
    }
}

#[test]
fn any_flipped_bit_of_a_proof_hash_is_caught() {
    let leaves = eight_leaves();
    let tree = MerkleTree::build(&leaves, 3).unwrap();
    let root = tree.root();
    let targets = vec![9u64, 12];
    let proof = generate(&tree, &targets, 3).unwrap();
    let honest = claims(&leaves, 3, &targets);
    assert_eq!(proof.indices, vec![5, 7, 8, 13]);
    for k in 0..proof.hashes.len() {
        for bit in 0..256 {
            let mut forged = proof.clone();
            forged.hashes[k][bit / 8] ^= 1 << (bit % 8);
            assert!(!verify(&root, &honest, &forged, 3));
        }
    }
}

#[test]
fn a_flipped_bit_of_the_root_is_caught() {
    let leaves = eight_leaves();
    let tree = MerkleTree::build(&leaves, 3).unwrap();
    let proof = generate(&tree, &vec![8], 3).unwrap();
    let honest = claims(&leaves, 3, &[8]);
    let mut root = tree.root();
    assert!(verify(&root, &honest, &proof, 3));
    root[17] ^= 4;
    assert!(!verify(&root, &honest, &proof, 3));
}

#[test]
fn malformed_claims_are_refused() {
    let leaves = eight_leaves();
    let tree = MerkleTree::build(&leaves, 3).unwrap();
    let root = tree.root();
    let proof = generate(&tree, &vec![10, 13], 3).unwrap();
    assert!(!verify(&root, &Vec::new(), &proof, 3));
    let twice = vec![(10u64, leaves[2]), (13u64, leaves[5]), (10u64, leaves[2])];
    assert!(!verify(&root, &twice, &proof, 3));
    let inner = vec![(5u64, tree.node_at(5).unwrap()), (13u64, leaves[5])];
    assert!(!verify(&root, &inner, &proof, 3));
    let outside = vec![(10u64, leaves[2]), (16u64, leaves[5])];
    assert!(!verify(&root, &outside, &proof, 3));
    let zero = vec![(0u64, leaves[2])];
    assert!(!verify(&root, &zero, &proof, 3));
    let fewer = vec![(10u64, leaves[2])];
    assert!(!verify(&root, &fewer, &proof, 3));
    let honest = vec![(13u64, leaves[5]), (10u64, leaves[2])];
    assert!(verify(&root, &honest, &proof, 3));
    assert!(!verify(&root, &honest, &proof, 2));
    assert!(!verify(&root, &honest, &proof, 4));
    assert!(!verify(&root, &honest, &proof, 64));
    assert!(!verify(&root, &honest, &proof, u32::MAX));
}

#[test]
fn malformed_proofs_are_refused() {
    let leaves = eight_leaves();
    let tree = MerkleTree::build(&leaves, 3).unwrap();
    let root = tree.root();
    let honest = claims(&leaves, 3, &[10, 13]);
    let proof = generate(&tree, &vec![10, 13], 3).unwrap();
    assert_eq!(proof.indices, vec![4, 7, 11, 12]);
    assert!(verify(&root, &honest, &proof, 3));

    let mut missing = proof.clone();
    missing.indices.remove(1);
    missing.hashes.remove(1);
    assert!(!verify(&root, &honest, &missing, 3));

    let mut extra = proof.clone();
    extra.indices.push(14);
    extra.hashes.push(leaves[6]);
    assert!(!verify(&root, &honest, &extra, 3));

    let mut on_path = proof.clone();
    on_path.indices.insert(0, 2);
    on_path.hashes.insert(0, tree.node_at(2).unwrap());
    assert!(!verify(&root, &honest, &on_path, 3));

    let mut with_root = proof.clone();
    with_root.indices.insert(0, 1);
    with_root.hashes.insert(0, root);
    assert!(!verify(&root, &honest, &with_root, 3));

    let mut swapped = proof.clone();
    swapped.indices.swap(0, 1);
    swapped.hashes.swap(0, 1);
    assert!(!verify(&root, &honest, &swapped, 3));

    let mut repeated = proof.clone();
    repeated.indices.insert(1, 4);
    repeated.hashes.insert(1, proof.hashes[0]);
    assert!(!verify(&root, &honest, &repeated, 3));

    let mut short = proof.clone();
    short.hashes.pop();
    assert!(!verify(&root, &honest, &short, 3));

    let mut long = proof.clone();
    long.hashes.push(leaves[0]);
    assert!(!verify(&root, &honest, &long, 3));

    let mut misplaced = proof.clone();
    misplaced.hashes.swap(2, 3);
    assert!(!verify(&root, &honest, &misplaced, 3));

    let empty = Multiproof { indices: Vec::new(), hashes: Vec::new() };
    assert!(!verify(&root, &honest, &empty, 3));
}

#[test]
fn a_proof_for_other_targets_is_refused() {
    let leaves = eight_leaves();
    let tree = MerkleTree::build(&leaves, 3).unwrap();
    let proof = generate(&tree, &vec![10, 13], 3).unwrap();
    assert!(!verify(&tree.root(), &claims(&leaves, 3, &[10, 12]), &proof, 3));
    assert!(!verify(&tree.root(), &claims(&leaves, 3, &[8, 9]), &proof, 3));
}

#[test]
fn proofs_in_a_deeper_tree() {
    let leaves: Vec<Hash32> = (0u8..64).map(leaf).collect();
    let tree = MerkleTree::build(&leaves, 6).unwrap();
    let targets = vec![66u64, 78];
    let proof = generate(&tree, &targets, 6).unwrap();
    assert_eq!(proof.indices, vec![3, 5, 17, 18, 32, 38, 67, 79]);
    assert!(verify(&tree.root(), &claims(&leaves, 6, &targets), &proof, 6));
    let lone = generate(&tree, &vec![100], 6).unwrap();
    assert_eq!(lone.indices, vec![2, 7, 13, 24, 51, 101]);
    assert!(verify(&tree.root(), &claims(&leaves, 6, &[100]), &lone, 6));
}

use bellman::SynthesisError;
use bls12_381::Scalar;
use ff::{Field, PrimeField};
use rand_core::{Rng, SeedableRng};
use rand_xorshift::XorShiftRng;
use zcash_proofs::gadgets::new_test_cs;
use zcash_proofs::merkle::{merkle_root, MerklePedersen};

fn scalar_bytes(u: u64) -> [u8; 32] {
    Scalar::from(u).to_repr()
}

/// Builds a deterministic path of the given depth and returns it with its
/// root.
fn sample_path(depth: usize) -> ([u8; 32], Vec<([u8; 32], bool)>, [u8; 32]) {
    let leaf = scalar_bytes(11);
    let path: Vec<([u8; 32], bool)> = (0..depth)
        .map(|i| (scalar_bytes(1000 + 37 * i as u64), i % 3 == 1))
        .collect();
    let root = merkle_root(&leaf, &path);
    (leaf, path, root)
}

fn synthesize_ok_and_satisfied(leaf: [u8; 32], path: &[([u8; 32], bool)], anchor: [u8; 32]) -> bool {
    let mut cs = new_test_cs();
    let circuit = MerklePedersen {
        leaf: Some(leaf),
        auth_path: path.iter().map(|&e| Some(e)).collect(),
        anchor: Some(anchor),
    };
    circuit.synthesize(&mut cs).unwrap();
    cs.inner.is_satisfied()
}

#[test]
fn test_input_circuit_with_bls12_381() {
    let rng = &mut XorShiftRng::from_seed([
        0x58, 0x62, 0xbe, 0x3d, 0x76, 0x3d, 0x31, 0x8d, 0x17, 0xdb, 0x37, 0x32, 0x54, 0x06, 0xbc,
        0xe5,
    ]);

    let tree_depth = 32;

    for _ in 0..10 {
        let auth_path: Vec<([u8; 32], bool)> =
            vec![(Scalar::random(&mut *rng).to_repr(), rng.next_u32() % 2 != 0); tree_depth];
        let cm = Scalar::random(&mut *rng).to_repr();
        let anchor = merkle_root(&cm, &auth_path);

        let mut cs = new_test_cs();
        let instance = MerklePedersen {
            leaf: Some(cm),
            auth_path: auth_path.iter().map(|&e| Some(e)).collect(),
            anchor: Some(anchor),
        };
        instance.synthesize(&mut cs).unwrap();
        assert!(cs.inner.is_satisfied());
    }
}

#[test]
fn round_trip_membership_depths() {
    for depth in [8usize, 16, 32] {
        let (leaf, path, root) = sample_path(depth);
        assert!(synthesize_ok_and_satisfied(leaf, &path, root));
    }
}

#[test]
fn reference_ladder_matches_outside_hash() {
    let (leaf, path, root) = sample_path(8);
    let mut cur = leaf;
    for (i, &(sibling, is_right)) in path.iter().enumerate() {
        cur = if is_right {
            sapling_crypto::merkle_hash(i, &sibling, &cur)
        } else {
            sapling_crypto::merkle_hash(i, &cur, &sibling)
        };
    }
    assert_eq!(cur, root);
    assert_ne!(root, leaf);
}

#[test]
fn tamper_side_bit_fails() {
    let (leaf, mut path, root) = sample_path(8);
    path[3].1 = !path[3].1;
    assert!(!synthesize_ok_and_satisfied(leaf, &path, root));
}

#[test]
fn tamper_sibling_fails() {
    let (leaf, mut path, root) = sample_path(8);
    path[5].0 = scalar_bytes(999_999);
    assert!(!synthesize_ok_and_satisfied(leaf, &path, root));
}

#[test]
fn tamper_anchor_fails() {
    let (leaf, path, root) = sample_path(8);
    let bad = (Scalar::from_repr(root).unwrap() + Scalar::ONE).to_repr();
    assert!(!synthesize_ok_and_satisfied(leaf, &path, bad));
}

#[test]
fn end_to_end_depth_8() {
    let leaf = scalar_bytes(5);
    let sides = [false, true, false, true, false, true, false, false];
    let path: Vec<([u8; 32], bool)> = (0..8)
        .map(|i| (scalar_bytes(200 + i as u64), sides[i]))
        .collect();
    let root = merkle_root(&leaf, &path);
    assert!(synthesize_ok_and_satisfied(leaf, &path, root));
    let bad = (Scalar::from_repr(root).unwrap() + Scalar::ONE).to_repr();
    assert!(!synthesize_ok_and_satisfied(leaf, &path, bad));
}

#[test]
fn anchor_is_the_public_input() {
    let (leaf, path, root) = sample_path(8);
    let mut cs = new_test_cs();
    let circuit = MerklePedersen {
        leaf: Some(leaf),
        auth_path: path.iter().map(|&e| Some(e)).collect(),
        anchor: Some(root),
    };
    circuit.synthesize(&mut cs).unwrap();
    assert!(cs.inner.verify(&[Scalar::from_repr(root).unwrap()]));
}

#[test]
fn missing_leaf_is_rejected() {
    let (_, path, root) = sample_path(8);
    let mut cs = new_test_cs();
    let circuit = MerklePedersen {
        leaf: None,
        auth_path: path.iter().map(|&e| Some(e)).collect(),
        anchor: Some(root),
    };
    assert!(matches!(circuit.synthesize(&mut cs), Err(SynthesisError::AssignmentMissing)));
}

#[test]
fn missing_path_entry_is_rejected() {
    let (leaf, path, root) = sample_path(8);
    let mut auth_path: Vec<Option<([u8; 32], bool)>> = path.iter().map(|&e| Some(e)).collect();
    auth_path[2] = None;
    let mut cs = new_test_cs();
    let circuit = MerklePedersen { leaf: Some(leaf), auth_path, anchor: Some(root) };
    assert!(matches!(circuit.synthesize(&mut cs), Err(SynthesisError::AssignmentMissing)));
}

#[test]
fn non_canonical_sibling_is_rejected() {
    let (leaf, path, root) = sample_path(8);
    let mut auth_path: Vec<Option<([u8; 32], bool)>> = path.iter().map(|&e| Some(e)).collect();
    auth_path[0] = Some(([0xff; 32], false));
    let mut cs = new_test_cs();
    let circuit = MerklePedersen { leaf: Some(leaf), auth_path, anchor: Some(root) };
    assert!(matches!(circuit.synthesize(&mut cs), Err(SynthesisError::Unsatisfiable)));
}

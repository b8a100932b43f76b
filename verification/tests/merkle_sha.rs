use bellman::SynthesisError;
use zcash_proofs::gadgets::{alloc_bit, new_test_cs, sha256_block};
use zcash_proofs::merkle_sha::{
    conditionally_swap_u256, witness_bits, witness_u252, witness_u256, JSInput, JoinSplit,
    NoteValue,
};

fn msb_bits(bytes: &[u8; 32]) -> Vec<bool> {
    bytes
        .iter()
        .flat_map(|&b| (0..8).rev().map(move |i| (b >> i) & 1 == 1))
        .collect()
}

fn sample_bytes(seed: u8) -> [u8; 32] {
    let mut out = [0u8; 32];
    for (i, b) in out.iter_mut().enumerate() {
        *b = seed.wrapping_mul(31).wrapping_add(i as u8).wrapping_mul(17);
    }
    out
}

#[test]
fn test_sprout_constraints() {
    const TREE_DEPTH: usize = 29;

    let rt = Some(sample_bytes(1));
    let mut position: u64 = 0x0a5f_13c7;
    let mut auth_path = Vec::new();
    for i in 0..TREE_DEPTH {
        auth_path.push(Some((sample_bytes(40 + i as u8), position & 1 == 1)));
        position >>= 1;
    }
    let leaf = Some(sample_bytes(2));

    let js = JoinSplit { inputs: vec![JSInput { leaf, auth_path }], rt };
    let mut cs = new_test_cs();
    let recomputed = js.synthesize(&mut cs).unwrap();
    assert_eq!(recomputed.len(), 256);
    assert!(cs.inner.is_satisfied());
    let expected_inputs =
        bellman::gadgets::multipack::compute_multipacking::<bls12_381::Scalar>(
            &bellman::gadgets::multipack::bytes_to_bits(&rt.unwrap()),
        );
    assert!(cs.inner.verify(&expected_inputs));
}

#[test]
fn input_count_other_than_one_fails() {
    for count in [0usize, 2, 3] {
        let inputs: Vec<JSInput> = (0..count)
            .map(|i| JSInput {
                leaf: Some(sample_bytes(i as u8)),
                auth_path: vec![Some((sample_bytes(7), false)); 2],
            })
            .collect();
        let js = JoinSplit { inputs, rt: Some(sample_bytes(9)) };
        let mut cs = new_test_cs();
        assert!(matches!(js.synthesize(&mut cs), Err(SynthesisError::Unsatisfiable)));
    }
}

#[test]
fn missing_root_is_rejected() {
    let js = JoinSplit {
        inputs: vec![JSInput {
            leaf: Some(sample_bytes(3)),
            auth_path: vec![Some((sample_bytes(4), true))],
        }],
        rt: None,
    };
    let mut cs = new_test_cs();
    assert!(js.synthesize(&mut cs).is_err());
}

#[test]
fn missing_layer_is_rejected() {
    let js = JoinSplit {
        inputs: vec![JSInput {
            leaf: Some(sample_bytes(3)),
            auth_path: vec![Some((sample_bytes(4), true)), None],
        }],
        rt: Some(sample_bytes(5)),
    };
    let mut cs = new_test_cs();
    assert!(js.synthesize(&mut cs).is_err());
}

#[test]
fn conditional_swap_both_branches() {
    for flip in [false, true] {
        let lhs_bytes = sample_bytes(21);
        let rhs_bytes = sample_bytes(22);
        let mut cs = new_test_cs();
        let mut k: u64 = 0;
        let lhs = witness_u256(&mut cs, &mut k, Some(&lhs_bytes)).unwrap();
        let rhs = witness_u256(&mut cs, &mut k, Some(&rhs_bytes)).unwrap();
        let n = k;
        k += 1;
        let cond = alloc_bit(&mut cs, n, Some(flip)).unwrap();
        let out = conditionally_swap_u256(&mut cs, &mut k, &lhs, &rhs, &cond).unwrap();

        assert_eq!(out.len(), 512);
        let lhs_bits = msb_bits(&lhs_bytes);
        let rhs_bits = msb_bits(&rhs_bytes);
        let expected: Vec<bool> = if flip {
            rhs_bits.iter().chain(lhs_bits.iter()).copied().collect()
        } else {
            lhs_bits.iter().chain(rhs_bits.iter()).copied().collect()
        };
        let got: Vec<bool> = out.iter().map(|c| c.value().unwrap()).collect();
        assert_eq!(got, expected);
        assert!(cs.inner.is_satisfied());
    }
}

#[test]
fn sha_layer_changes_the_bits() {
    let lhs_bytes = sample_bytes(31);
    let rhs_bytes = sample_bytes(32);
    let mut cs = new_test_cs();
    let mut k: u64 = 0;
    let lhs = witness_u256(&mut cs, &mut k, Some(&lhs_bytes)).unwrap();
    let rhs = witness_u256(&mut cs, &mut k, Some(&rhs_bytes)).unwrap();
    let mut preimage = lhs;
    preimage.extend(rhs);
    let n = k;
    let digest = sha256_block(&mut cs, n, &preimage).unwrap();
    assert_eq!(digest.len(), 256);
    let first_half: Vec<bool> = preimage[..256].iter().map(|c| c.value().unwrap()).collect();
    let out: Vec<bool> = digest.iter().map(|c| c.value().unwrap()).collect();
    assert_ne!(out, first_half);
}

#[test]
fn witness_bits_length_mismatch_fails_fast() {
    let bytes = sample_bytes(12);
    let mut cs = new_test_cs();
    let mut k: u64 = 0;
    let r = witness_bits(&mut cs, &mut k, Some(&bytes[..]), 255, 0);
    assert!(matches!(r, Err(SynthesisError::Unsatisfiable)));
    assert_eq!(k, 0);

    let r = witness_bits(&mut cs, &mut k, Some(&bytes[..4]), 30, 0);
    assert!(r.is_err());

    let r = witness_bits(&mut cs, &mut k, Some(&bytes[..4]), 30, 2);
    assert!(r.is_ok());
    assert_eq!(r.unwrap().len(), 30);
}

#[test]
fn witness_u252_skips_four_bits() {
    let mut bytes = sample_bytes(13);
    bytes[0] = 0b1010_1111;
    let mut cs = new_test_cs();
    let mut k: u64 = 0;
    let bits = witness_u252(&mut cs, &mut k, Some(&bytes)).unwrap();
    assert_eq!(bits.len(), 252);
    let expected: Vec<bool> = msb_bits(&bytes)[4..].to_vec();
    let got: Vec<bool> = bits.iter().map(|c| c.value().unwrap()).collect();
    assert_eq!(got, expected);
}

#[test]
fn note_value_round_trips() {
    for v in [0u64, 1, 2, 0x0123_4567_89ab_cdef, u64::MAX] {
        let mut cs = new_test_cs();
        let mut k: u64 = 0;
        let nv = NoteValue::new(&mut cs, &mut k, Some(v)).unwrap();
        assert_eq!(nv.get_value(), Some(v));

        let le = nv.bits_le();
        assert_eq!(le.len(), 64);
        let mut rebuilt: u64 = 0;
        for i in 0..64 {
            let bit = le[8 * (i / 8) + 7 - (i % 8)].value().unwrap();
            if bit {
                rebuilt |= 1u64 << i;
            }
        }
        assert_eq!(rebuilt, v);
        assert!(cs.inner.is_satisfied());
    }
}

#[test]
fn note_value_bits_le_expected_order() {
    let mut cs = new_test_cs();
    let mut k: u64 = 0;
    let nv = NoteValue::new(&mut cs, &mut k, Some(0x01u64)).unwrap();
    let le: Vec<bool> = nv.bits_le().iter().map(|c| c.value().unwrap()).collect();
    // Bit 0 of the value sits at the end of the first byte group.
    let mut expected = vec![false; 64];
    expected[7] = true;
    assert_eq!(le, expected);
}

#[test]
fn note_value_requires_a_value() {
    let mut cs = new_test_cs();
    let mut k: u64 = 0;
    assert!(NoteValue::new(&mut cs, &mut k, None).is_err());
}

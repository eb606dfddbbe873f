//! End-to-end runs of the pipeline's bookkeeping with a toy homomorphic
//! engine standing in for the external crypto collaborator: a
//! "ciphertext" is the XOR-masked identifier, an "encrypted boolean" is a
//! one-byte flag.  The library's index bookkeeping, bundle formats and
//! schedule are what is under test.

use mutual_friends::bundle::{enroll_package, load_private_bundle, load_public_bundle,
    load_result_bundle, PROFILE_V1};
use mutual_friends::compute::{comparison_pairs, pair_revealed, start_compute};
use mutual_friends::errors::Error;

const MASK: u8 = 0x5a;

fn toy_encrypt(x: u128) -> Vec<u8> {
    x.to_le_bytes().iter().map(|b| b ^ MASK).collect()
}

fn toy_decrypt(ct: &[u8]) -> u128 {
    let mut raw = [0u8; 16];
    for (i, b) in ct.iter().enumerate() {
        raw[i] = b ^ MASK;
    }
    u128::from_le_bytes(raw)
}

fn toy_eq(remote_ct: &[u8], local_plain: u128) -> Vec<u8> {
    if toy_decrypt(remote_ct) == local_plain {
        vec![1u8]
    } else {
        vec![0u8]
    }
}

fn toy_or(a: &[u8], b: &[u8]) -> Vec<u8> {
    vec![a[0] | b[0]]
}

fn toy_reveal(flag: &[u8]) -> bool {
    flag[0] != 0
}

#[test]
fn comparison_pairs_cover_the_matrix_row_major() {
    let ps = comparison_pairs(2, 3).unwrap();
    assert_eq!(ps, vec![(0, 0), (0, 1), (0, 2), (1, 0), (1, 1), (1, 2)]);
    assert_eq!(comparison_pairs(0, 3).unwrap_err(), Error::EmptyInputError);
    assert_eq!(comparison_pairs(2, 0).unwrap_err(), Error::EmptyInputError);
}

#[test]
fn pair_revealed_is_positional() {
    let ids = vec![9u128, 42u128];
    let flags = vec![true, false];
    let ps = pair_revealed(&ids, &flags).unwrap();
    assert_eq!(ps, vec![(9u128, true), (42u128, false)]);
    assert_eq!(
        pair_revealed(&ids, &vec![true]).unwrap_err(),
        Error::DeserializationError
    );
}

#[test]
fn full_pipeline_local_5_9_remote_9_42() {
    // Enrolling party: remote list [9, 42].
    let remote_ids = vec![9u128, 42u128];
    let remote_cts: Vec<Vec<u8>> = remote_ids.iter().map(|x| toy_encrypt(*x)).collect();
    let compute_key = vec![0xc0u8];
    let secret_key = vec![0x5eu8];
    let (pub_bytes, priv_bytes) =
        enroll_package(PROFILE_V1, &remote_ids, &remote_cts, &compute_key, &secret_key).unwrap();

    // Comparing party: local list [5, 9].
    let local = vec![5u128, 9u128];
    let pb = load_public_bundle(&pub_bytes).unwrap();
    assert_eq!(pb.ciphertexts.len(), 2);
    let mut session = start_compute(&pb, PROFILE_V1, local.len()).unwrap();
    let mut row_index = 0;
    while session.remaining() > 0 {
        let ct = &pb.ciphertexts[row_index];
        let mut acc = toy_eq(ct, local[0]);
        for l in &local[1..] {
            let e = toy_eq(ct, *l);
            acc = toy_or(&acc, &e);
        }
        session.push_row(acc);
        row_index += 1;
    }
    let result_bytes = session.finish();

    // Enrolling party again: reveal.
    let rb = load_result_bundle(&result_bytes).unwrap();
    let pr = load_private_bundle(&priv_bytes).unwrap();
    assert_eq!(rb.flags.len(), 2);
    let revealed: Vec<bool> = rb.flags.iter().map(|f| toy_reveal(f)).collect();
    let paired = pair_revealed(&pr.identifiers, &revealed).unwrap();
    assert_eq!(paired, vec![(9u128, true), (42u128, false)]);
}

#[test]
fn result_bundle_length_equals_remote_count() {
    let remote_ids = vec![1u128, 2, 3, 4, 5];
    let remote_cts: Vec<Vec<u8>> = remote_ids.iter().map(|x| toy_encrypt(*x)).collect();
    let (pub_bytes, _priv_bytes) =
        enroll_package(PROFILE_V1, &remote_ids, &remote_cts, &vec![1u8], &vec![2u8]).unwrap();
    let pb = load_public_bundle(&pub_bytes).unwrap();
    let mut session = start_compute(&pb, PROFILE_V1, 7).unwrap();
    let mut i = 0;
    while session.remaining() > 0 {
        session.push_row(vec![(i % 2) as u8]);
        i += 1;
    }
    let result_bytes = session.finish();
    let rb = load_result_bundle(&result_bytes).unwrap();
    assert_eq!(rb.flags.len(), remote_ids.len());
}

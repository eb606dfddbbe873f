use mutual_friends::bundle::{
    build_public_bundle, enroll_package, load_private_bundle, load_public_bundle,
    load_result_bundle, KIND_PUBLIC, PROFILE_V1,
};
use mutual_friends::compute::start_compute;
use mutual_friends::envelope::{parse_envelope, serialize_envelope};
use mutual_friends::errors::Error;

#[test]
fn envelope_roundtrip_runtime() {
    let items = vec![vec![1u8, 2, 3], vec![], vec![255u8; 70]];
    let key = vec![9u8, 8, 7];
    let bytes = serialize_envelope(KIND_PUBLIC, PROFILE_V1, &items, &key);
    let env = parse_envelope(&bytes).unwrap();
    assert_eq!(env.kind, KIND_PUBLIC);
    assert_eq!(env.profile, PROFILE_V1);
    assert_eq!(env.items, items);
    assert_eq!(env.key, key);
}

#[test]
fn envelope_rejects_truncation_and_trailing_bytes() {
    let items = vec![vec![4u8, 5]];
    let key = vec![1u8];
    let bytes = serialize_envelope(KIND_PUBLIC, PROFILE_V1, &items, &key);
    let truncated: Vec<u8> = bytes[..bytes.len() - 1].to_vec();
    assert_eq!(parse_envelope(&truncated).unwrap_err(), Error::DeserializationError);
    let mut padded = bytes.clone();
    padded.push(0);
    assert_eq!(parse_envelope(&padded).unwrap_err(), Error::DeserializationError);
    let mut bad_magic = bytes;
    bad_magic[0] ^= 0xff;
    assert_eq!(parse_envelope(&bad_magic).unwrap_err(), Error::DeserializationError);
}

#[test]
fn public_bundle_roundtrip() {
    let cts = vec![vec![10u8, 11], vec![12u8]];
    let ck = vec![42u8, 43];
    let bytes = build_public_bundle(PROFILE_V1, &cts, &ck).unwrap();
    let pb = load_public_bundle(&bytes).unwrap();
    assert_eq!(pb.profile, PROFILE_V1);
    assert_eq!(pb.ciphertexts, cts);
    assert_eq!(pb.compute_key, ck);
}

#[test]
fn load_rejects_non_compressed_bytes() {
    let garbage = vec![1u8, 2, 3, 4, 5];
    assert_eq!(load_public_bundle(&garbage).unwrap_err(), Error::DecompressionError);
}

#[test]
fn load_rejects_compressed_garbage() {
    let garbage = vec![7u8; 50];
    let frame = zstd::encode_all(&garbage[..], 3).unwrap();
    assert_eq!(load_public_bundle(&frame).unwrap_err(), Error::DeserializationError);
}

#[test]
fn load_rejects_wrong_bundle_kind() {
    let cts = vec![vec![1u8]];
    let ck = vec![2u8];
    let bytes = build_public_bundle(PROFILE_V1, &cts, &ck).unwrap();
    assert_eq!(load_private_bundle(&bytes).unwrap_err(), Error::DeserializationError);
    assert_eq!(load_result_bundle(&bytes).unwrap_err(), Error::DeserializationError);
}

#[test]
fn empty_enroll_yields_empty_input_error_and_no_bundles() {
    let ids: Vec<u128> = vec![];
    let cts: Vec<Vec<u8>> = vec![];
    let r = enroll_package(PROFILE_V1, &ids, &cts, &vec![1u8], &vec![2u8]);
    assert_eq!(r.unwrap_err(), Error::EmptyInputError);
}

#[test]
fn private_bundle_roundtrip_preserves_order() {
    let ids = vec![9u128, 42u128, 5u128];
    let cts = vec![vec![1u8], vec![2u8], vec![3u8]];
    let (pub_bytes, priv_bytes) =
        enroll_package(PROFILE_V1, &ids, &cts, &vec![7u8], &vec![8u8]).unwrap();
    let pb = load_public_bundle(&pub_bytes).unwrap();
    assert_eq!(pb.ciphertexts, cts);
    let pr = load_private_bundle(&priv_bytes).unwrap();
    assert_eq!(pr.identifiers, ids);
    assert_eq!(pr.secret_key, vec![8u8]);
    assert_eq!(pr.profile, PROFILE_V1);
}

#[test]
fn profile_mismatch_yields_crypto_config_mismatch() {
    let profile_v2: u32 = 2;
    let cts = vec![vec![1u8]];
    let bytes = build_public_bundle(profile_v2, &cts, &vec![9u8]).unwrap();
    let pb = load_public_bundle(&bytes).unwrap();
    let r = start_compute(&pb, PROFILE_V1, 3);
    assert_eq!(r.unwrap_err(), Error::CryptoConfigMismatch);
}

#[test]
fn empty_local_list_yields_empty_input_error() {
    let cts = vec![vec![1u8]];
    let bytes = build_public_bundle(PROFILE_V1, &cts, &vec![9u8]).unwrap();
    let pb = load_public_bundle(&bytes).unwrap();
    let r = start_compute(&pb, PROFILE_V1, 0);
    assert_eq!(r.unwrap_err(), Error::EmptyInputError);
}

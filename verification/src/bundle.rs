//! Bundles: the three persisted artifacts of the pipeline, each a
//! compressed envelope.
//!
//! A public bundle carries the ordered compressed ciphertexts and the
//! compute key; a private bundle carries the ordered plaintext
//! identifiers and the secret key; a result bundle carries the ordered
//! aggregated encrypted booleans.  Index `i` of a private bundle's
//! identifier list corresponds to index `i` of its paired public
//! bundle's ciphertext list; both builders preserve the input order
//! exactly, which the contracts state.

use vstd::prelude::*;

use crate::codec;
use crate::compressor;
use crate::envelope;
use crate::errors::Error;

verus! {

/// The encryption-parameter profile this library generates under.
pub const PROFILE_V1: u32 = 1;

pub const KIND_PUBLIC: u8 = 1;

pub const KIND_PRIVATE: u8 = 2;

pub const KIND_RESULT: u8 = 3;

/// The shareable artifact: ordered compressed ciphertexts plus the
/// compute key, under a recorded parameter profile.
#[derive(Debug)]
pub struct PublicBundle {
    pub profile: u32,
    pub ciphertexts: Vec<Vec<u8>>,
    pub compute_key: Vec<u8>,
}

/// The retained artifact: ordered plaintext identifiers plus the secret
/// key.  It must never leave the enrolling party.
#[derive(Debug)]
pub struct PrivateBundle {
    pub profile: u32,
    pub identifiers: Vec<u128>,
    pub secret_key: Vec<u8>,
}

/// The returned artifact: one aggregated encrypted boolean per remote
/// entry, in remote-entry order.
#[derive(Debug)]
pub struct ResultBundle {
    pub profile: u32,
    pub flags: Vec<Vec<u8>>,
}

/// What loading a bundle's bytes gives: the decompressed envelope's
/// fields, or the error kind of the layer that rejected the bytes.
pub open spec fn load_envelope_spec(b: Seq<u8>) -> Result<(u8, u32, Seq<Seq<u8>>, Seq<u8>), Error> {
    match compressor::zstd_inflate(b) {
        Option::None => Result::Err(Error::DecompressionError),
        Option::Some(inner) => match envelope::parse_envelope_spec(inner) {
            Option::None => Result::Err(Error::DeserializationError),
            Option::Some(f) => Result::Ok(f),
        },
    }
}

/// The canonical identifier strings of an ordered identifier list.
pub open spec fn id_strings(ids: Seq<u128>) -> Seq<Seq<u8>> {
    ids.map_values(|x: u128| codec::str_of_id(x))
}

fn seal_envelope(kind: u8, profile: u32, items: &Vec<Vec<u8>>, key: &Vec<u8>) -> (r: Vec<u8>)
    ensures
        load_envelope_spec(r@) == Result::<(u8, u32, Seq<Seq<u8>>, Seq<u8>), Error>::Ok(
            ((kind, profile, envelope::blob_views(items@), key@)),
        ),
{
    let inner = envelope::serialize_envelope(kind, profile, items, key);
    let out = compressor::compress_bytes(&inner, compressor::COMPRESSION_LEVEL);
    proof {
        envelope::lemma_envelope_roundtrip(
            kind,
            profile,
            envelope::blob_views(items@),
            key@,
        );
    }
    out
}

fn open_envelope(b: &Vec<u8>) -> (r: Result<envelope::Envelope, Error>)
    ensures
        match r {
            Ok(env) => load_envelope_spec(b@) == Result::<
                (u8, u32, Seq<Seq<u8>>, Seq<u8>),
                Error,
            >::Ok(((env.kind, env.profile, envelope::blob_views(env.items@), env.key@))),
            Err(e) => match load_envelope_spec(b@) {
                Result::Ok(_) => false,
                Result::Err(e2) => e == e2,
            },
        },
{
    let inner = match compressor::decompress_bytes(b) {
        Ok(v) => v,
        Err(e) => {
            return Err(e);
        },
    };
    match envelope::parse_envelope(&inner) {
        Ok(env) => Ok(env),
        Err(e) => Err(e),
    }
}

/// Package an ordered ciphertext list and a compute key as a public
/// bundle.  Rejects an empty list: the compute phase has no defined
/// behavior over zero entries.
pub fn build_public_bundle(profile: u32, ciphertexts: &Vec<Vec<u8>>, compute_key: &Vec<u8>) -> (r:
    Result<Vec<u8>, Error>)
    ensures
        match r {
            Ok(out) => ciphertexts@.len() > 0 && load_envelope_spec(out@) == Result::<
                (u8, u32, Seq<Seq<u8>>, Seq<u8>),
                Error,
            >::Ok(((KIND_PUBLIC, profile, envelope::blob_views(ciphertexts@), compute_key@))),
            Err(e) => e == Error::EmptyInputError && ciphertexts@.len() == 0,
        },
{
    if ciphertexts.len() == 0 {
        return Err(Error::EmptyInputError);
    }
    Ok(seal_envelope(KIND_PUBLIC, profile, ciphertexts, compute_key))
}

/// Load a public bundle from its on-disk bytes, validating the
/// compression frame, the envelope header and the bundle kind before
/// anything else is touched.
pub fn load_public_bundle(b: &Vec<u8>) -> (r: Result<PublicBundle, Error>)
    ensures
        match r {
            Ok(pb) => load_envelope_spec(b@) == Result::<
                (u8, u32, Seq<Seq<u8>>, Seq<u8>),
                Error,
            >::Ok(
                ((KIND_PUBLIC, pb.profile, envelope::blob_views(pb.ciphertexts@), pb.compute_key@)),
            ),
            Err(e) => match load_envelope_spec(b@) {
                Result::Ok(f) => f.0 != KIND_PUBLIC && e == Error::DeserializationError,
                Result::Err(e2) => e == e2,
            },
        },
{
    let env = match open_envelope(b) {
        Ok(env) => env,
        Err(e) => {
            return Err(e);
        },
    };
    if env.kind != KIND_PUBLIC {
        return Err(Error::DeserializationError);
    }
    Ok(PublicBundle { profile: env.profile, ciphertexts: env.items, compute_key: env.key })
}

/// Package an ordered identifier list and the secret key as a private
/// bundle, each identifier stored as its canonical external string.
/// Rejects an empty list.
pub fn build_private_bundle(profile: u32, identifiers: &Vec<u128>, secret_key: &Vec<u8>) -> (r:
    Result<Vec<u8>, Error>)
    ensures
        match r {
            Ok(out) => identifiers@.len() > 0 && load_envelope_spec(out@) == Result::<
                (u8, u32, Seq<Seq<u8>>, Seq<u8>),
                Error,
            >::Ok(((KIND_PRIVATE, profile, id_strings(identifiers@), secret_key@))),
            Err(e) => e == Error::EmptyInputError && identifiers@.len() == 0,
        },
{
    if identifiers.len() == 0 {
        return Err(Error::EmptyInputError);
    }
    let mut items: Vec<Vec<u8>> = Vec::new();
    let mut i: usize = 0;
    while i < identifiers.len()
        invariant
            i <= identifiers@.len(),
            envelope::blob_views(items@) =~= id_strings(identifiers@).subrange(0, i as int),
        decreases identifiers@.len() - i,
    {
        let s = codec::decode(identifiers[i]);
        let ghost prev = envelope::blob_views(items@);
        items.push(s);
        proof {
            assert(envelope::blob_views(items@) =~= prev.push(s@));
            assert(id_strings(identifiers@).subrange(0, i + 1) =~= id_strings(
                identifiers@,
            ).subrange(0, i as int).push(codec::str_of_id(identifiers@[i as int])));
        }
        i = i + 1;
    }
    proof {
        assert(id_strings(identifiers@).subrange(0, identifiers@.len() as int) =~= id_strings(
            identifiers@,
        ));
    }
    Ok(seal_envelope(KIND_PRIVATE, profile, &items, secret_key))
}

/// Load a private bundle, validating structure first and then each
/// stored identifier string.
pub fn load_private_bundle(b: &Vec<u8>) -> (r: Result<PrivateBundle, Error>)
    ensures
        match r {
            Ok(pb) => load_envelope_spec(b@) == Result::<
                (u8, u32, Seq<Seq<u8>>, Seq<u8>),
                Error,
            >::Ok(((KIND_PRIVATE, pb.profile, id_strings(pb.identifiers@), pb.secret_key@))),
            Err(e) => match load_envelope_spec(b@) {
                Result::Ok(f) => e == Error::DeserializationError && (f.0 != KIND_PRIVATE
                    || exists|i: int|
                    0 <= i < f.2.len() && !(#[trigger] codec::valid_id_string(f.2[i]))),
                Result::Err(e2) => e == e2,
            },
        },
{
    let env = match open_envelope(b) {
        Ok(env) => env,
        Err(e) => {
            return Err(e);
        },
    };
    if env.kind != KIND_PRIVATE {
        return Err(Error::DeserializationError);
    }
    let mut ids: Vec<u128> = Vec::new();
    let mut i: usize = 0;
    while i < env.items.len()
        invariant
            i <= env.items@.len(),
            ids@.len() == i,
            env.kind == KIND_PRIVATE,
            load_envelope_spec(b@) == Result::<(u8, u32, Seq<Seq<u8>>, Seq<u8>), Error>::Ok(
                ((env.kind, env.profile, envelope::blob_views(env.items@), env.key@)),
            ),
            forall|k: int|
                0 <= k < i ==> #[trigger] codec::valid_id_string(
                    envelope::blob_views(env.items@)[k],
                ),
            id_strings(ids@) =~= envelope::blob_views(env.items@).subrange(0, i as int),
        decreases env.items@.len() - i,
    {
        let x = match codec::encode(env.items[i].as_slice()) {
            Ok(x) => x,
            Err(_) => {
                proof {
                    let f = load_envelope_spec(b@)->Ok_0;
                    assert(f.2 == envelope::blob_views(env.items@));
                    assert(f.2[i as int] == env.items@[i as int]@);
                    assert(!codec::valid_id_string(f.2[i as int]));
                    assert(0 <= (i as int) && (i as int) < f.2.len());
                    assert(exists|k: int|
                        0 <= k < f.2.len() && !(#[trigger] codec::valid_id_string(f.2[k])));
                }
                return Err(Error::DeserializationError);
            },
        };
        let ghost prev = id_strings(ids@);
        ids.push(x);
        proof {
            let s = envelope::blob_views(env.items@)[i as int];
            codec::lemma_str_of_id(s);
            assert(codec::str_of_id(x) == s);
            assert(id_strings(ids@) =~= prev.push(codec::str_of_id(x)));
            assert(envelope::blob_views(env.items@).subrange(0, i + 1) =~= envelope::blob_views(
                env.items@,
            ).subrange(0, i as int).push(s));
        }
        i = i + 1;
    }
    proof {
        assert(envelope::blob_views(env.items@).subrange(
            0,
            env.items@.len() as int,
        ) =~= envelope::blob_views(env.items@));
    }
    Ok(PrivateBundle { profile: env.profile, identifiers: ids, secret_key: env.key })
}

/// Package the ordered aggregated flags as a result bundle.
pub fn build_result_bundle(profile: u32, flags: &Vec<Vec<u8>>) -> (r: Vec<u8>)
    ensures
        load_envelope_spec(r@) == Result::<(u8, u32, Seq<Seq<u8>>, Seq<u8>), Error>::Ok(
            ((KIND_RESULT, profile, envelope::blob_views(flags@), Seq::<u8>::empty())),
        ),
{
    let key: Vec<u8> = Vec::new();
    seal_envelope(KIND_RESULT, profile, flags, &key)
}

/// Load a result bundle.
pub fn load_result_bundle(b: &Vec<u8>) -> (r: Result<ResultBundle, Error>)
    ensures
        match r {
            Ok(rb) => load_envelope_spec(b@) == Result::<
                (u8, u32, Seq<Seq<u8>>, Seq<u8>),
                Error,
            >::Ok(((KIND_RESULT, rb.profile, envelope::blob_views(rb.flags@), Seq::<u8>::empty()))),
            Err(e) => match load_envelope_spec(b@) {
                Result::Ok(f) => e == Error::DeserializationError && (f.0 != KIND_RESULT || f.3
                    != Seq::<u8>::empty()),
                Result::Err(e2) => e == e2,
            },
        },
{
    let env = match open_envelope(b) {
        Ok(env) => env,
        Err(e) => {
            return Err(e);
        },
    };
    if env.kind != KIND_RESULT {
        return Err(Error::DeserializationError);
    }
    if env.key.len() != 0 {
        proof {
            assert(env.key@ != Seq::<u8>::empty());
        }
        return Err(Error::DeserializationError);
    }
    proof {
        assert(env.key@ =~= Seq::<u8>::empty());
    }
    Ok(ResultBundle { profile: env.profile, flags: env.items })
}

/// Enroll: package both bundles as one atomic unit.  The identifier at
/// index `i` of the private bundle corresponds to the ciphertext at
/// index `i` of the public bundle; both lists keep the input order.
/// Rejects an empty identifier list before anything is packaged.
pub fn enroll_package(
    profile: u32,
    identifiers: &Vec<u128>,
    ciphertexts: &Vec<Vec<u8>>,
    compute_key: &Vec<u8>,
    secret_key: &Vec<u8>,
) -> (r: Result<(Vec<u8>, Vec<u8>), Error>)
    requires
        ciphertexts@.len() == identifiers@.len(),
    ensures
        match r {
            Ok(pair) => identifiers@.len() > 0 && load_envelope_spec(pair.0@) == Result::<
                (u8, u32, Seq<Seq<u8>>, Seq<u8>),
                Error,
            >::Ok(((KIND_PUBLIC, profile, envelope::blob_views(ciphertexts@), compute_key@)))
                && load_envelope_spec(pair.1@) == Result::<
                (u8, u32, Seq<Seq<u8>>, Seq<u8>),
                Error,
            >::Ok(((KIND_PRIVATE, profile, id_strings(identifiers@), secret_key@))),
            Err(e) => e == Error::EmptyInputError && identifiers@.len() == 0,
        },
{
    if identifiers.len() == 0 {
        return Err(Error::EmptyInputError);
    }
    let pub_bytes = match build_public_bundle(profile, ciphertexts, compute_key) {
        Ok(v) => v,
        Err(e) => {
            return Err(e);
        },
    };
    let priv_bytes = match build_private_bundle(profile, identifiers, secret_key) {
        Ok(v) => v,
        Err(e) => {
            return Err(e);
        },
    };
    Ok((pub_bytes, priv_bytes))
}

} // verus!

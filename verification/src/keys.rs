//! Authority keys of the Noise handshake.
use crate::hexadecimal;
use vstd::prelude::*;

verus! {

/// The x-only public key of a secret key, as `secp256k1` derives it; none where
/// the bytes are no secret key.
pub uninterp spec fn xonly_key(secret: Seq<u8>) -> Option<Seq<u8>>;

/// Whether the bytes are the x coordinate of a point of the curve, as
/// `noise_sv2::Initiator::from_raw_k` finds.
pub uninterp spec fn is_x_coordinate(key: Seq<u8>) -> bool;

/// The error of `secp256k1`.
#[verifier::external_type_specification]
#[verifier::external_body]
pub struct ExSecpError(secp256k1::Error);

/// `secp256k1::SecretKey::from_slice`, `Keypair::from_secret_key` and
/// `Keypair::x_only_public_key`: the key depends on the secret bytes alone, and is
/// the x coordinate of a point.
#[verifier::external_body]
fn xonly_from_secret(secret: &[u8]) -> (out: Result<[u8; 32], secp256k1::Error>)
    ensures
        match out {
            Ok(key) => xonly_key(secret@) == Some(key@) && is_x_coordinate(key@),
            Err(_) => xonly_key(secret@) is None,
        },
{
    let secret = secp256k1::SecretKey::from_slice(secret)?;
    let pair = secp256k1::Keypair::from_secret_key(&secp256k1::Secp256k1::new(), &secret);
    Ok(pair.x_only_public_key().0.serialize())
}

/// `secp256k1::Keypair::new` with a random secret: the public part, first, is the
/// x-only key of the secret part. Which secret it is, is left to chance.
#[verifier::external_body]
fn random_pair() -> (pair: ([u8; 32], [u8; 32]))
    ensures
        xonly_key(pair.1@) == Some(pair.0@),
{
    let secp = secp256k1::Secp256k1::new();
    let pair = secp256k1::Keypair::new(&secp, &mut secp256k1::rand::thread_rng());
    (pair.x_only_public_key().0.serialize(), pair.secret_key().secret_bytes())
}

/// The x-only public key of `secret`, or nothing where it is no secret key.
pub fn xonly_public_key(secret: &[u8]) -> (out: Option<[u8; 32]>)
    ensures
        match out {
            Some(key) => xonly_key(secret@) == Some(key@) && is_x_coordinate(key@),
            None => xonly_key(secret@) is None,
        },
{
    match xonly_from_secret(secret) {
        Ok(key) => Some(key),
        Err(_) => None,
    }
}

/// A fresh authority key pair: the x-only public key and its secret key.
pub fn generate_keypair() -> (pair: ([u8; 32], [u8; 32]))
    ensures
        xonly_key(pair.1@) == Some(pair.0@),
{
    random_pair()
}

/// The two lines that put a key pair into the environment.
pub fn keypair_lines(public: &[u8; 32], private: &[u8; 32]) -> (lines: (String, String))
    ensures
        lines.0@ == "POOL_AUTHORITY_PUBLIC_KEY="@ + hexadecimal::encoded(public@),
        lines.1@ == "POOL_AUTHORITY_PRIVATE_KEY="@ + hexadecimal::encoded(private@),
{
    let public_hex: String = hexadecimal::encode(public.as_slice());
    let private_hex: String = hexadecimal::encode(private.as_slice());
    let mut first: String = "POOL_AUTHORITY_PUBLIC_KEY=".to_owned();
    first.append(public_hex.as_str());
    let mut second: String = "POOL_AUTHORITY_PRIVATE_KEY=".to_owned();
    second.append(private_hex.as_str());
    (first, second)
}

} // verus!

//! Values drawn from the operating system's randomness: fresh unique ids and
//! signing key pairs.

use vstd::prelude::*;

verus! {

/// Relies on uuid's `Uuid::new_v4` and its `Display`, the hyphenated form of
/// 36 characters.
#[verifier::external_body]
pub(crate) fn fresh_uuid_text() -> (r: String)
    ensures
        r@.len() == 36,
{
    uuid::Uuid::new_v4().to_string()
}

#[verifier::external_type_specification]
#[verifier::external_body]
pub struct ExKeypair(ed25519_dalek::Keypair);

/// Relies on ed25519-dalek's `Keypair::generate`, fed by rand's `OsRng`, and on
/// `PublicKey::to_bytes`, whose result is a 32-byte array: a fresh key pair and
/// its public key.
#[verifier::external_body]
pub(crate) fn generate_ed25519_keypair() -> (r: (ed25519_dalek::Keypair, Vec<u8>))
    ensures
        r.1@.len() == 32,
{
    let keypair = ed25519_dalek::Keypair::generate(&mut rand::rngs::OsRng);
    let public = keypair.public.to_bytes().to_vec();
    (keypair, public)
}

} // verus!

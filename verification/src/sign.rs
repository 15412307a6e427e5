use vstd::prelude::*;

use ed25519_dalek::Signer;

verus! {

#[verifier::external_type_specification]
#[verifier::external_body]
pub struct ExEdSigningKey(ed25519_dalek::SigningKey);

/// The signature the outside signer produces for a message under the key
/// with this 32-byte secret. Named only: the scheme is deterministic in
/// secret and message, so the same pair always gives the same 64 bytes,
/// but nothing in this crate states what they are.
pub uninterp spec fn ed25519_sign_of(secret: Seq<u8>, msg: Seq<u8>) -> Seq<u8>;

/// A named signing key pair: the signer name that verifiers know the
/// public half under, and the private half that signs fingerprints. The
/// ghost `secret` records the bytes the key was built from, so contracts
/// can speak of the signature as a function of secret and message.
pub struct NamedKey {
    pub name: String,
    pub key: ed25519_dalek::SigningKey,
    /// The 32-byte secret the key was built from.
    pub secret: Ghost<Seq<u8>>,
}

/// The text of one signature: the signer name, a colon, and the base64
/// rendering of the 64-byte signature over `msg`.
pub open spec fn signature_text(key: NamedKey, msg: Seq<u8>) -> Seq<char> {
    key.name@ + ":"@ + crate::encoding::base64_of(ed25519_sign_of(key.secret@, msg)).map_values(
        |b: u8| b as char,
    )
}

/// Relies on ed25519_dalek::SigningKey::from_bytes: a key from a 32-byte
/// secret.
#[verifier::external_body]
fn ed_key_from_bytes(secret: &[u8]) -> (r: ed25519_dalek::SigningKey)
    requires
        secret@.len() == 32,
{
    let mut buf = [0u8; 32];
    buf.copy_from_slice(secret);
    ed25519_dalek::SigningKey::from_bytes(&buf)
}

/// Relies on ed25519_dalek::SigningKey::sign: a detached 64-byte
/// signature, a deterministic function of the key's secret and the
/// message.
#[verifier::external_body]
pub(crate) fn sign_detached(key: &NamedKey, msg: &[u8]) -> (r: Vec<u8>)
    ensures
        r@ == ed25519_sign_of(key.secret@, msg@),
        r@.len() == 64,
{
    key.key.sign(msg).to_bytes().to_vec()
}

impl NamedKey {
    /// A key under the given signer name, from its 32-byte secret. The
    /// secret must be exactly 32 bytes; anything else is a corrupt key,
    /// reported once at startup.
    pub fn new(name: String, secret: &Vec<u8>) -> (r: Option<NamedKey>)
        ensures
            r is Some <==> secret@.len() == 32,
            r matches Some(k) ==> k.name == name && k.secret@ == secret@,
    {
        if secret.len() == 32 {
            Some(
                NamedKey {
                    name,
                    key: ed_key_from_bytes(secret.as_slice()),
                    secret: Ghost(secret@),
                },
            )
        } else {
            None
        }
    }
}

} // verus!

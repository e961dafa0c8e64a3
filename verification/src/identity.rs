//! A local ed25519 identity.

use crate::crypto::{
    ed25519_public, generate_signing_key, keep_secret, secret_of, signing_key_from,
    signing_key_public, signing_key_secret, SecretBytes,
};
use crate::error::CoreError;
use crate::name::{
    keyid_len_objection, keyid_matches, keyid_of, vanity_objection, Name, NameModel,
};
use ed25519_dalek::SigningKey;
use vstd::prelude::*;

verus! {

/// An ed25519 key pair. The secret half lives in a `SigningKey`, which wipes it from memory
/// when the identity is dropped.
pub struct Identity {
    signing: SigningKey,
}

impl Identity {
    /// The secret key.
    pub closed spec fn secret(&self) -> Seq<u8> {
        secret_of(self.signing)@
    }

    /// The public key.
    pub open spec fn public(&self) -> Seq<u8> {
        ed25519_public(self.secret())@
    }

    /// A fresh identity from the random source of the operating system.
    pub fn generate() -> (identity: Self)
        ensures
            identity.secret().len() == 32,
            identity.public().len() == 32,
    {
        Identity { signing: generate_signing_key() }
    }

    /// The identity with the given secret key.
    pub fn from_secret_bytes(bytes: &[u8; 32]) -> (identity: Self)
        ensures
            identity.secret() == bytes@,
    {
        Identity { signing: signing_key_from(bytes) }
    }

    /// The public key.
    pub fn public_bytes(&self) -> (public: [u8; 32])
        ensures
            public@ == self.public(),
    {
        signing_key_public(&self.signing)
    }

    /// The key that signs records.
    pub fn signing_key(&self) -> (key: &SigningKey)
        ensures
            secret_of(*key)@ == self.secret(),
    {
        &self.signing
    }

    /// A copy of the secret key, for the layer that stores it. It is wiped when it is dropped.
    pub fn secret_bytes(&self) -> (secret: SecretBytes)
        ensures
            secret@ == self.secret(),
    {
        keep_secret(signing_key_secret(&self.signing))
    }

    /// The name of this identity at the given keyid length.
    pub fn name(&self, vanity: &str, keyid_len: usize) -> (r: Result<Name, CoreError>)
        ensures
            match r {
                Ok(name) => {
                    &&& keyid_len_objection(keyid_len as nat) is None
                    &&& vanity_objection(vanity@) is None
                    &&& name@ == (NameModel {
                        vanity: vanity@,
                        keyid: keyid_of(self.public(), keyid_len as nat),
                    })
                    &&& name@.valid()
                    &&& keyid_matches(name.keyid@, self.public())
                },
                Err(e) => if keyid_len_objection(keyid_len as nat) is Some {
                    keyid_len_objection(keyid_len as nat) == Some(e)
                } else {
                    vanity_objection(vanity@) == Some(e)
                },
            },
    {
        Name::from_pubkey(&self.public_bytes(), vanity, keyid_len)
    }
}

} // verus!

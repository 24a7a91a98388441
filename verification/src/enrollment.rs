//! Confidential management-link invitation metadata, never part of public
//! peer or state responses.
use vstd::prelude::*;

use crate::codec::{base64_encode, base64_text, canonical_base64, decode_canonical};
use crate::crypto::zeros;

verus! {

/// A nonzero 32-byte management PSK. It has no Debug implementation.
#[derive(Clone, Copy)]
pub struct SecretKey([u8; 32]);

impl View for SecretKey {
    type V = Seq<u8>;

    closed spec fn view(&self) -> Seq<u8> {
        self.0@
    }
}

impl SecretKey {
    #[verifier::type_invariant]
    spec fn well_formed(self) -> bool {
        self.0@ != zeros(32)
    }

    /// Refuses the all-zero key.
    pub fn from_bytes(bytes: [u8; 32]) -> (r: Result<SecretKey, &'static str>)
        ensures
            match r {
                Ok(k) => bytes@ != zeros(32) && k@ == bytes@,
                Err(m) => bytes@ == zeros(32) && m@ == "a management PSK must not be zero"@,
            },
    {
        let zero = [0u8; 32];
        if crate::protocol::same_bytes(&bytes, &zero) {
            proof {
                assert(zero@ =~= zeros(32));
            }
            Err("a management PSK must not be zero")
        } else {
            proof {
                assert(zero@ =~= zeros(32));
            }
            Ok(SecretKey(bytes))
        }
    }

    pub fn bytes(&self) -> (r: &[u8; 32])
        ensures
            r@ == self@,
            r@ != zeros(32),
    {
        proof {
            use_type_invariant(self);
        }
        &self.0
    }

    /// Accepts only the canonical padded base64 text of a nonzero key.
    pub fn decode_text(text: &[u8]) -> (r: Result<SecretKey, &'static str>)
        ensures
            match r {
                Ok(k) => canonical_base64(text@, 32) == Some(k@),
                Err(_) => canonical_base64(text@, 32) is None || canonical_base64(text@, 32) == Some(
                    zeros(32),
                ),
            },
    {
        let bytes = match decode_canonical(text, 32) {
            Some(b) => b,
            None => return Err("invalid management PSK"),
        };
        let mut key = [0u8; 32];
        let mut i: usize = 0;
        while i < 32
            invariant
                i <= 32,
                key@.len() == 32,
                bytes@.len() == 32,
                forall|j: int| 0 <= j < i ==> key@[j] == bytes@[j],
            decreases 32 - i,
        {
            key[i] = bytes[i];
            i += 1;
        }
        proof {
            assert(key@ =~= bytes@);
        }
        SecretKey::from_bytes(key)
    }

    /// The key's padded base64 text.
    pub fn encode_text(&self) -> (r: Vec<u8>)
        ensures
            r@ == base64_text(self@),
            canonical_base64(r@, 32) == Some(self@),
    {
        proof {
            use_type_invariant(self);
        }
        base64_encode(self.0.as_slice())
    }
}

/// The preshared key an invitation conveys for the inviting admin's own
/// link to the new peer, keyed by the admin's stable peer identifier (its
/// WireGuard key changes when the invitation is redeemed).
#[derive(Clone, Debug)]
pub struct AdminLinkPsk {
    pub admin_peer_id: i64,
    /// The key itself, as base64 text.
    pub psk: String,
}

/// A peer's enrollment in its server's management link.
#[derive(Clone, Copy)]
pub struct Enrollment {
    pub network_id: [u8; 16],
    pub provision_id: [u8; 16],
    pub peer_id: i64,
    pub server_id: i64,
    pub psk: SecretKey,
}

impl Enrollment {
    /// Both identities positive and distinct.
    pub fn validate(&self) -> (r: Result<(), &'static str>)
        ensures
            match r {
                Ok(()) => self.peer_id > 0 && self.server_id > 0 && self.peer_id != self.server_id,
                Err(m) => !(self.peer_id > 0 && self.server_id > 0 && self.peer_id
                    != self.server_id) && m@ == "invalid management enrollment identities"@,
            },
    {
        if self.peer_id <= 0 || self.server_id <= 0 || self.peer_id == self.server_id {
            return Err("invalid management enrollment identities");
        }
        Ok(())
    }
}

} // verus!

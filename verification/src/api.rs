//! Public, versioned API objects. They never contain endpoint secrets.
use vstd::prelude::*;

use crate::crypto::{hashes_to, Bridge};
use crate::protocol::{Binary, Bundle, Decision, Message, Number, Transcript, REQUEST_LIMIT};
use crate::Error;

verus! {

/// Whether a bundle is advertised or retired.
#[derive(Clone, Copy, Debug, PartialEq, Eq, Structural)]
pub enum Lifecycle {
    Enabled,
    Retired,
}

/// A peer's bundle as the server advertises it.
#[derive(Clone, Copy, Debug, PartialEq, Eq)]
pub struct AdvertisedBundle {
    pub pq_version: u8,
    pub lifecycle: Lifecycle,
    pub bundle: Bundle,
}

/// A request to register, replace or retire an endpoint's bundle.
#[derive(Clone, Copy, Debug, PartialEq, Eq)]
pub struct Registration {
    pub expected_revision: Option<Number>,
    pub pq_version: u8,
    pub lifecycle: Lifecycle,
    pub bundle: Bundle,
    /// Explicit emergency retirement may terminate committed work while gated.
    pub emergency: bool,
}

/// The registration rules that need no cryptography: protocol version 1,
/// and an emergency only as a retirement.
pub open spec fn registration_shape_ok(r: Registration) -> bool {
    r.pq_version == 1 && !(r.emergency && r.lifecycle != Lifecycle::Retired)
}

impl Registration {
    /// Accepts a body of `length` bytes whose strict JSON decoding is
    /// `decoded` (`None` where decoding failed): within the request limit,
    /// protocol version 1, emergency only for retirement, and a valid bundle.
    pub fn parse<B: Bridge>(length: usize, decoded: Option<Registration>, bridge: &B) -> (r: Result<
        Registration,
        Error,
    >)
        ensures
            length > REQUEST_LIMIT ==> r == Err::<Registration, Error>(Error::Invalid),
            decoded is None ==> r == Err::<Registration, Error>(Error::Invalid),
            decoded matches Some(v) && !registration_shape_ok(v) ==> r == Err::<
                Registration,
                Error,
            >(Error::Invalid),
            r matches Ok(v) ==> length <= REQUEST_LIMIT && decoded == Some(v)
                && registration_shape_ok(v),
            // A body within the limit that decodes to a well-shaped
            // registration is accepted exactly when its bundle validates;
            // a validation error is returned as it is.
            length <= REQUEST_LIMIT && decoded is Some && registration_shape_ok(decoded->0) ==> exists|
                x448_check: Result<(), Error>,
                signing_check: Result<(), Error>,
            |
                r == match #[trigger] crate::protocol::bundle_check(
                    decoded->0.bundle,
                    x448_check,
                    signing_check,
                ) {
                    Ok(()) => Ok::<Registration, Error>(decoded->0),
                    Err(e) => Err(e),
                },
    {
        if length > REQUEST_LIMIT {
            return Err(Error::Invalid);
        }
        let value = match decoded {
            Some(v) => v,
            None => return Err(Error::Invalid),
        };
        if value.pq_version != 1 || (value.emergency && value.lifecycle != Lifecycle::Retired) {
            return Err(Error::Invalid);
        }
        let validated = value.bundle.validate(bridge);
        let ghost (x, y) = choose|x: Result<(), Error>, y: Result<(), Error>|
            validated == crate::protocol::bundle_check(value.bundle, x, y);
        assert(validated == crate::protocol::bundle_check(value.bundle, x, y));
        validated?;
        Ok(value)
    }
}

/// A receipt for one accepted message: its sender, type and the hash of its
/// canonical JSON encoding.
#[derive(Clone, Copy, Debug, PartialEq, Eq)]
pub struct MessageDigest {
    pub sender_id: Number,
    pub message_type: u8,
    pub digest: Binary<32>,
}

impl MessageDigest {
    /// The receipt of `message`, whose canonical JSON encoding is `encoded`.
    pub fn of<B: Bridge>(message: &Message, encoded: &[u8], bridge: &B) -> (r: Result<
        MessageDigest,
        Error,
    >)
        ensures
            hashes_to(
                bridge,
                encoded@,
                match r {
                    Ok(d) => Ok(d.digest.0),
                    Err(e) => Err(e),
                },
            ),
            r matches Ok(d) ==> d.sender_id == message.sender_id && d.message_type
                == message.message_type,
    {
        let hashed = bridge.hash(encoded);
        assert(hashes_to(bridge, encoded@, hashed));
        let digest = hashed?;
        Ok(MessageDigest {
            sender_id: message.sender_id,
            message_type: message.message_type,
            digest: Binary(digest),
        })
    }
}

/// Active records carry the exact transcript/messages. Terminal records compact
/// those bodies, preserving the high-water decision and identical-retry digests.
#[derive(Clone, Debug, PartialEq, Eq)]
pub struct Exchange {
    pub network_id: Binary<16>,
    pub initiator_id: Number,
    pub responder_id: Number,
    pub initiator_bundle_id: Binary<16>,
    pub responder_bundle_id: Binary<16>,
    pub sequence: Number,
    pub exchange_id: Binary<16>,
    pub transcript_hash: Binary<32>,
    pub decision: Decision,
    pub created_at: u64,
    pub prepare_expires_at: u64,
    pub transcript: Option<Transcript>,
    pub messages: Vec<Message>,
    pub receipts: Vec<MessageDigest>,
    /// Explicit administrative invalidation is not an ordinary pre-commit abort.
    pub termination: Option<String>,
}

impl Exchange {
    /// Drops the transcript and message bodies of a terminal exchange;
    /// everything else, receipts included, is kept.
    pub fn compact(&mut self)
        ensures
            crate::protocol::is_terminal(old(self).decision.phase) ==> final(self).transcript is None
                && final(self).messages@ == Seq::<Message>::empty(),
            !crate::protocol::is_terminal(old(self).decision.phase) ==> final(self).transcript
                == old(self).transcript && final(self).messages@ == old(self).messages@,
            final(self).decision == old(self).decision,
            final(self).receipts@ == old(self).receipts@,
            final(self).exchange_id == old(self).exchange_id,
            final(self).sequence == old(self).sequence,
            final(self).transcript_hash == old(self).transcript_hash,
            final(self).termination == old(self).termination,
            final(self).network_id == old(self).network_id,
            final(self).initiator_id == old(self).initiator_id,
            final(self).responder_id == old(self).responder_id,
            final(self).initiator_bundle_id == old(self).initiator_bundle_id,
            final(self).responder_bundle_id == old(self).responder_bundle_id,
            final(self).created_at == old(self).created_at,
            final(self).prepare_expires_at == old(self).prepare_expires_at,
    {
        if self.decision.terminal() {
            self.transcript = None;
            self.messages.clear();
        }
    }
}

/// One peer in a state page, with its advertised bundle if it has one.
#[derive(Clone, Debug)]
pub struct PeerState<P> {
    pub peer: P,
    pub is_server: bool,
    pub pq: Option<AdvertisedBundle>,
}

/// Explicit opt-in shape. Legacy state responses remain unchanged.
#[derive(Clone, Debug)]
pub struct StatePage<P, C> {
    pub pq_version: u8,
    pub network_id: Binary<16>,
    pub visibility_revision: Number,
    pub peers: Vec<PeerState<P>>,
    pub cidrs: Vec<C>,
    pub exchanges: Vec<Exchange>,
    pub next_cursor: Option<String>,
}

} // verus!

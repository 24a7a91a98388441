//! Private endpoint snapshots. These types must never be used as API bodies.
use vstd::prelude::*;

use crate::api::{AdvertisedBundle, Lifecycle, Registration};
use crate::codec::{base64_encode, base64_text, canonical_base64, decode_canonical};
use crate::crypto::{
    accepts_signing_key, accepts_x448, hybrid_keypair, random, signing_keypair, zeros, Bridge,
    Candidate, HybridPublic, HybridSecret, Random, Secret,
};
use crate::protocol::{Binary, Bundle, Decision, Message, Number, Transcript};
use crate::Error;
use std::collections::BTreeMap;
use vstd::std_specs::iter::IteratorSpec;

verus! {

/// Secret bytes kept in the owner-only snapshot, where they are written as
/// canonical base64. Deliberately no Debug implementation.
#[derive(Clone, Copy)]
pub struct StoredSecret<const N: usize>(pub Secret<N>);

impl<const N: usize> View for StoredSecret<N> {
    type V = Seq<u8>;

    open spec fn view(&self) -> Seq<u8> {
        self.0@
    }
}

impl<const N: usize> StoredSecret<N> {
    /// Accepts only the canonical padded base64 text of exactly `N` bytes.
    pub fn decode_text(text: &[u8]) -> (r: Result<StoredSecret<N>, Error>)
        ensures
            match r {
                Ok(s) => canonical_base64(text@, N as nat) == Some(s@),
                Err(e) => canonical_base64(text@, N as nat) is None && e == Error::Invalid,
            },
    {
        let bytes = match decode_canonical(text, N) {
            Some(bytes) => bytes,
            None => return Err(Error::Invalid),
        };
        let mut value = [0u8; N];
        let mut i: usize = 0;
        while i < N
            invariant
                i <= N,
                value@.len() == N,
                bytes@.len() == N,
                forall|j: int| 0 <= j < i ==> value@[j] == bytes@[j],
            decreases N - i,
        {
            value[i] = bytes[i];
            i += 1;
        }
        proof {
            assert(value@ =~= bytes@);
        }
        Ok(StoredSecret(Secret::from_bytes(value)))
    }

    /// The secret's padded base64 text.
    pub fn encode_text(&self) -> (r: Vec<u8>)
        requires
            N <= usize::MAX / 4 * 3,
        ensures
            r@ == base64_text(self@),
            canonical_base64(r@, N as nat) == Some(self@),
    {
        base64_encode(self.0.0.as_slice())
    }
}

#[derive(Clone, Copy, Debug, PartialEq, Eq, Structural)]
pub enum Policy {
    Strict,
    Permissive,
    Retired,
}

#[derive(Clone, Copy, Debug, PartialEq, Eq, Structural)]
pub enum Enrollment {
    Registering,
    Advertised,
    Retiring,
    Retired,
}

#[derive(Clone, Copy, Debug, PartialEq, Eq, Structural)]
pub enum Status {
    Advertised,
    Legacy,
    Preparing,
    Recovering,
    Confirmed,
    Blocked,
}

/// An endpoint's advertised bundle with the private halves of its keys.
#[derive(Clone, Copy)]
pub struct Identity {
    pub bundle: Bundle,
    pub kem: StoredSecret<3168>,
    pub x448: StoredSecret<56>,
    pub signing: StoredSecret<66>,
}

impl Identity {
    /// A fresh identity for WireGuard key `wg` at `revision`: a random
    /// bundle ID, a hybrid key pair and a signing key pair.
    pub fn generate<R: Random, B: Bridge>(wg: Binary<32>, revision: Number, rng: &mut R, bridge: &B) -> (r:
        Result<Identity, Error>)
        ensures
            r matches Ok(i) ==> i.bundle.wg_public_key == wg && i.bundle.bundle_revision
                == revision,
            // The hybrid keys are a pair the bridge generated, and the
            // signing public key is the bridge's for the private key.
            r matches Ok(i) ==> {
                &&& i.signing.0@[0] <= 1
                &&& call_ensures(
                    B::sign_public,
                    (bridge, &i.signing.0),
                    Ok::<[u8; 67], Error>(i.bundle.pq_sig_public_key.0),
                )
                &&& exists|seed: &Secret<64>|
                    #[trigger] call_ensures(
                        B::hybrid_keygen,
                        (bridge, seed),
                        Ok::<(HybridPublic, HybridSecret), Error>(
                            (
                                HybridPublic {
                                    kem: i.bundle.pq_kem_public_key.0,
                                    x448: i.bundle.pq_x448_public_key.0,
                                },
                                HybridSecret { kem: i.kem.0, x448: i.x448.0 },
                            ),
                        ),
                    )
            },
    {
        let id = random::<16, R>(rng)?;
        let pair = hybrid_keypair(rng, bridge);
        let (hybrid, private) = pair?;
        let (signing, signing_private) = signing_keypair(rng, bridge)?;
        let identity = Identity {
            bundle: Bundle {
                bundle_id: Binary(id.0),
                bundle_revision: revision,
                wg_public_key: wg,
                pq_kem_public_key: Binary(hybrid.kem),
                pq_x448_public_key: Binary(hybrid.x448),
                pq_sig_public_key: Binary(signing),
            },
            kem: StoredSecret(private.kem),
            x448: StoredSecret(private.x448),
            signing: StoredSecret(signing_private),
        };
        proof {
            let seed = choose|seed: &Secret<64>|
                #[trigger] call_ensures(B::hybrid_keygen, (bridge, seed), pair) && seed@.len() == 64;
            assert(pair == Ok::<(HybridPublic, HybridSecret), Error>(
                (
                    HybridPublic {
                        kem: identity.bundle.pq_kem_public_key.0,
                        x448: identity.bundle.pq_x448_public_key.0,
                    },
                    HybridSecret { kem: identity.kem.0, x448: identity.x448.0 },
                ),
            ));
        }
        Ok(identity)
    }

    pub fn hybrid_secret(&self) -> (r: HybridSecret)
        ensures
            r.kem == self.kem.0,
            r.x448 == self.x448.0,
    {
        HybridSecret { kem: self.kem.0, x448: self.x448.0 }
    }

    /// Validates the bundle, then requires the private keys to derive
    /// exactly the bundle's public keys.
    pub fn validate<B: Bridge>(&self, bridge: &B) -> (r: Result<(), Error>)
        ensures
            crate::crypto::kem_check(self.bundle.pq_kem_public_key@) is Err ==> r == Err::<
                (),
                Error,
            >(Error::Invalid),
            // Success means the bundle validated and the bridge derives
            // exactly its public keys from the private ones.
            r is Ok ==> {
                &&& accepts_x448(bridge, self.bundle.pq_x448_public_key@)
                &&& accepts_signing_key(bridge, self.bundle.pq_sig_public_key@)
                &&& call_ensures(
                    B::hybrid_public,
                    (bridge, &HybridSecret { kem: self.kem.0, x448: self.x448.0 }),
                    Ok::<HybridPublic, Error>(
                        HybridPublic {
                            kem: self.bundle.pq_kem_public_key.0,
                            x448: self.bundle.pq_x448_public_key.0,
                        },
                    ),
                )
                &&& call_ensures(
                    B::sign_public,
                    (bridge, &self.signing.0),
                    Ok::<[u8; 67], Error>(self.bundle.pq_sig_public_key.0),
                )
            },
    {
        self.bundle.validate(bridge)?;
        let public = bridge.hybrid_public(&self.hybrid_secret())?;
        if !crate::protocol::same_bytes(&public.kem, &self.bundle.pq_kem_public_key.0)
            || !crate::protocol::same_bytes(&public.x448, &self.bundle.pq_x448_public_key.0) {
            return Err(Error::Invalid);
        }
        let signing_public = bridge.sign_public(&self.signing.0)?;
        if !crate::protocol::same_bytes(&signing_public, &self.bundle.pq_sig_public_key.0) {
            return Err(Error::Invalid);
        }
        proof {
            assert(public.kem =~= self.bundle.pq_kem_public_key.0);
            assert(public.x448 =~= self.bundle.pq_x448_public_key.0);
            assert(signing_public =~= self.bundle.pq_sig_public_key.0);
        }
        Ok(())
    }
}

/// Whether a 32-byte secret is all zeros, which no link may use.
pub open spec fn is_zero_secret(s: Seq<u8>) -> bool {
    s == zeros(32)
}

/// The outcome of validating a link secret.
pub open spec fn link_secret_check(psk: Seq<u8>) -> Result<(), Error> {
    if is_zero_secret(psk) {
        Err(Error::Invalid)
    } else {
        Ok(())
    }
}

fn check_link_secret(psk: &StoredSecret<32>) -> (r: Result<(), Error>)
    ensures
        r == link_secret_check(psk@),
{
    let zero = Secret::from_bytes([0u8; 32]);
    proof {
        assert(zero@ =~= zeros(32));
    }
    if psk.0.same(&zero) {
        Err(Error::Invalid)
    } else {
        Ok(())
    }
}

/// A management-link candidate: a provision ID and its secret.
#[derive(Clone, Copy)]
pub struct StagedLink {
    pub provision_id: Binary<16>,
    pub psk: StoredSecret<32>,
}

impl StagedLink {
    /// A random provision ID and secret; an all-zero secret is refused.
    pub fn generate<R: Random>(rng: &mut R) -> (r: Result<StagedLink, Error>)
        ensures
            r matches Ok(l) ==> !is_zero_secret(l.psk@),
    {
        let id = random::<16, R>(rng)?;
        let psk = random::<32, R>(rng)?;
        let link = StagedLink { provision_id: Binary(id.0), psk: StoredSecret(psk) };
        link.validate()?;
        Ok(link)
    }

    pub fn validate(&self) -> (r: Result<(), Error>)
        ensures
            r == link_secret_check(self.psk@),
    {
        check_link_secret(&self.psk)
    }
}

/// A per-peer management-link secret, plus an optional durably staged
/// rotation candidate and, once one is applied, the superseded secret,
/// kept until an operator confirms that the new one works. Rotation is
/// entirely operator-driven; the exchange mailbox and the ordinary sync
/// never touch these fields.
#[derive(Clone, Copy)]
pub struct ManagementLink {
    pub provision_id: Binary<16>,
    pub psk: StoredSecret<32>,
    pub verified: bool,
    pub staged: Option<StagedLink>,
    pub previous: Option<StagedLink>,
}

/// The link after its staged candidate is applied: the candidate becomes
/// active, the superseded secret is kept, and the link is unverified.
pub open spec fn applied(l: ManagementLink) -> ManagementLink {
    ManagementLink {
        provision_id: l.staged->0.provision_id,
        psk: l.staged->0.psk,
        verified: false,
        staged: None,
        previous: Some(StagedLink { provision_id: l.provision_id, psk: l.psk }),
    }
}

/// The link after its superseded secret is discarded.
pub open spec fn rotation_confirmed(l: ManagementLink) -> ManagementLink {
    ManagementLink { previous: None, ..l }
}

/// The link with the secret that was active before the rotation restored,
/// as verified, and no candidate.
pub open spec fn rolled_back(l: ManagementLink) -> ManagementLink {
    ManagementLink {
        provision_id: l.previous->0.provision_id,
        psk: l.previous->0.psk,
        verified: true,
        staged: None,
        previous: None,
    }
}

/// The link forced to `forced`, with all rotation bookkeeping cleared.
pub open spec fn forced_to(l: ManagementLink, forced: StagedLink) -> ManagementLink {
    ManagementLink {
        provision_id: forced.provision_id,
        psk: forced.psk,
        verified: false,
        staged: None,
        previous: None,
    }
}

/// Whether a staging request conflicts with the candidate already staged.
pub open spec fn staging_conflicts(l: ManagementLink, adopted: Option<Secret<32>>) -> bool {
    &&& l.staged is Some
    &&& adopted is Some
    &&& adopted->0@ != l.staged->0.psk@
}

impl ManagementLink {
    /// A fresh unverified link with a random provision ID and secret.
    pub fn generate<R: Random>(rng: &mut R) -> (r: Result<ManagementLink, Error>)
        ensures
            r matches Ok(l) ==> !l.verified && l.staged is None && l.previous is None
                && !is_zero_secret(l.psk@),
    {
        let id = random::<16, R>(rng)?;
        let psk = random::<32, R>(rng)?;
        let link = ManagementLink {
            provision_id: Binary(id.0),
            psk: StoredSecret(psk),
            verified: false,
            staged: None,
            previous: None,
        };
        link.validate()?;
        Ok(link)
    }

    pub fn validate(&self) -> (r: Result<(), Error>)
        ensures
            r == link_secret_check(self.psk@),
    {
        check_link_secret(&self.psk)
    }

    /// Stages a rotation candidate without touching the active secret.
    /// Re-staging while a candidate is staged changes nothing, and is
    /// refused when it adopts a different secret.
    pub fn stage_rotation<R: Random>(&mut self, adopted: Option<Secret<32>>, rng: &mut R) -> (r:
        Result<(), Error>)
        ensures
            old(self).staged is Some ==> *final(self) == *old(self) && r == if staging_conflicts(
                *old(self),
                adopted,
            ) {
                Err::<(), Error>(Error::Conflict)
            } else {
                Ok(())
            },
            old(self).staged is None ==> match r {
                Ok(()) => {
                    &&& *final(self) == (ManagementLink { staged: final(self).staged, ..*old(self) })
                    &&& final(self).staged is Some
                    &&& !is_zero_secret(final(self).staged->0.psk@)
                    &&& (adopted matches Some(key) ==> final(self).staged->0.psk@ == key@)
                },
                Err(_) => *final(self) == *old(self),
            },
            adopted is Some && is_zero_secret(adopted->0@) && old(self).staged is None ==> r is Err,
    {
        if let Some(existing) = &self.staged {
            if let Some(key) = &adopted {
                if !key.same(&existing.psk.0) {
                    return Err(Error::Conflict);
                }
            }
            return Ok(());
        }
        let mut staged = StagedLink::generate(rng)?;
        if let Some(secret) = adopted {
            staged.psk = StoredSecret(secret);
            staged.validate()?;
        }
        self.staged = Some(staged);
        Ok(())
    }

    /// Promotes the staged candidate to the active secret, keeping the
    /// superseded one until `confirm_rotation` or `rollback_rotation`, and
    /// marks the link unverified.
    pub fn apply_rotation(&mut self) -> (r: Result<(), Error>)
        ensures
            old(self).staged is None ==> r == Err::<(), Error>(Error::Conflict) && *final(self)
                == *old(self),
            old(self).staged is Some ==> r is Ok && *final(self) == applied(*old(self)),
    {
        let staged = match self.staged {
            Some(s) => s,
            None => return Err(Error::Conflict),
        };
        self.previous = Some(StagedLink { provision_id: self.provision_id, psk: self.psk });
        self.provision_id = staged.provision_id;
        self.psk = staged.psk;
        self.verified = false;
        self.staged = None;
        Ok(())
    }

    /// Discards the superseded secret once the applied one is verified.
    pub fn confirm_rotation(&mut self) -> (r: Result<(), Error>)
        ensures
            old(self).previous is None || !old(self).verified ==> r == Err::<(), Error>(
                Error::Conflict,
            ) && *final(self) == *old(self),
            old(self).previous is Some && old(self).verified ==> r is Ok && *final(self)
                == rotation_confirmed(*old(self)),
    {
        if self.previous.is_none() {
            return Err(Error::Conflict);
        }
        if !self.verified {
            return Err(Error::Conflict);
        }
        self.previous = None;
        Ok(())
    }

    /// Discards any candidate and restores the secret that was active
    /// before the rotation began, which was already verified.
    pub fn rollback_rotation(&mut self) -> (r: Result<(), Error>)
        ensures
            old(self).previous is None ==> r == Err::<(), Error>(Error::Conflict) && *final(self)
                == *old(self),
            old(self).previous is Some ==> r is Ok && *final(self) == rolled_back(*old(self)),
    {
        let previous = match self.previous {
            Some(p) => p,
            None => return Err(Error::Conflict),
        };
        self.staged = None;
        self.previous = None;
        self.provision_id = previous.provision_id;
        self.psk = previous.psk;
        self.verified = true;
        Ok(())
    }

    /// Forces the active secret to `secret` under a fresh provision ID,
    /// whatever rotation is in progress.
    pub fn force_active<R: Random>(&mut self, secret: Secret<32>, rng: &mut R) -> (r: Result<
        (),
        Error,
    >)
        ensures
            match r {
                Ok(()) => {
                    &&& final(self).psk@ == secret@
                    &&& *final(self) == forced_to(
                        *old(self),
                        StagedLink { provision_id: final(self).provision_id, psk: final(self).psk },
                    )
                },
                Err(_) => *final(self) == *old(self),
            },
            is_zero_secret(secret@) ==> r is Err,
    {
        let mut forced = StagedLink::generate(rng)?;
        forced.psk = StoredSecret(secret);
        forced.validate()?;
        self.provision_id = forced.provision_id;
        self.psk = forced.psk;
        self.verified = false;
        self.staged = None;
        self.previous = None;
        Ok(())
    }
}

/// Applying a staged candidate and then rolling back restores the secret
/// and provision ID that were active before, as verified, with no rotation
/// bookkeeping left.
pub proof fn lemma_rollback_undoes_apply(l: ManagementLink)
    requires
        l.staged is Some,
    ensures
        rolled_back(applied(l)).psk == l.psk,
        rolled_back(applied(l)).provision_id == l.provision_id,
        rolled_back(applied(l)).verified,
        rolled_back(applied(l)).staged is None,
        rolled_back(applied(l)).previous is None,
{
}

/// A freshly applied secret is unverified, so its rotation cannot be
/// confirmed until it is verified; the superseded secret stays available.
pub proof fn lemma_applied_rotation_needs_verification(l: ManagementLink)
    requires
        l.staged is Some,
    ensures
        !applied(l).verified,
        applied(l).previous is Some,
        applied(l).previous->0.psk == l.psk,
        applied(l).psk == l.staged->0.psk,
{
}


/// The candidate secrets of an exchange, as kept in the private snapshot.
#[derive(Clone, Copy)]
pub struct CandidateSecrets {
    pub psk: StoredSecret<32>,
    pub initiator_confirmation: StoredSecret<32>,
    pub responder_confirmation: StoredSecret<32>,
}

impl From<Candidate> for CandidateSecrets {
    fn from(value: Candidate) -> (r: CandidateSecrets) {
        CandidateSecrets {
            psk: StoredSecret(value.psk),
            initiator_confirmation: StoredSecret(value.initiator_confirmation),
            responder_confirmation: StoredSecret(value.responder_confirmation),
        }
    }
}

impl vstd::std_specs::convert::FromSpecImpl<Candidate> for CandidateSecrets {
    open spec fn obeys_from_spec() -> bool {
        true
    }

    open spec fn from_spec(v: Candidate) -> CandidateSecrets {
        CandidateSecrets {
            psk: StoredSecret(v.psk),
            initiator_confirmation: StoredSecret(v.initiator_confirmation),
            responder_confirmation: StoredSecret(v.responder_confirmation),
        }
    }
}

impl CandidateSecrets {
    pub fn candidate(&self) -> (r: Candidate)
        ensures
            r.psk == self.psk.0,
            r.initiator_confirmation == self.initiator_confirmation.0,
            r.responder_confirmation == self.responder_confirmation.0,
    {
        Candidate {
            psk: self.psk.0,
            initiator_confirmation: self.initiator_confirmation.0,
            responder_confirmation: self.responder_confirmation.0,
        }
    }
}

/// An exchange in progress with one peer.
#[derive(Clone)]
pub struct Pending {
    pub transcript: Transcript,
    pub candidate: CandidateSecrets,
    pub decision: Decision,
    pub outbox: Vec<Message>,
    pub installation_intent: bool,
    pub installed: bool,
    pub confirmed: bool,
    pub attempts: u32,
    pub next_retry_at: u64,
}

/// The last exchange that completed with one peer.
#[derive(Clone, Copy)]
pub struct Confirmed {
    pub local_bundle_id: Binary<16>,
    pub remote_bundle_id: Binary<16>,
    pub sequence: Number,
    pub exchange_id: Binary<16>,
    pub transcript_hash: Binary<32>,
    pub psk: StoredSecret<32>,
    pub completed_at: u64,
}

/// A tunnel-activity baseline: sampled WireGuard byte counters and when
/// they last changed. Its absence means never sampled, which counts as
/// activity, so a relationship is never wrongly judged idle.
#[derive(Clone, Copy, Debug, PartialEq, Eq, Structural)]
pub struct Activity {
    pub rx_bytes: u64,
    pub tx_bytes: u64,
    pub last_active_at: u64,
}

/// Everything this endpoint keeps about one data peer.
#[derive(Clone)]
pub struct Relationship {
    pub remote: Bundle,
    pub sequence: Number,
    pub prior_pq: bool,
    pub operator_psk_id: Binary<16>,
    pub operator_psk: StoredSecret<32>,
    pub confirmed: Option<Confirmed>,
    pub pending: Option<Pending>,
    pub gated: bool,
    pub status: Status,
    pub activity: Option<Activity>,
}

/// A relationship gated and blocked until it is confirmed again.
pub open spec fn blocked(r: Relationship) -> Relationship {
    Relationship { gated: true, status: Status::Blocked, ..r }
}

/// A relationship whose exchange in progress is retired.
pub open spec fn drained(r: Relationship) -> Relationship {
    Relationship { pending: None, ..r }
}

/// A relationship blocked with its recovery secrets discarded.
pub open spec fn wiped(r: Relationship) -> Relationship {
    Relationship { pending: None, confirmed: None, gated: true, status: Status::Blocked, ..r }
}

/// Replacing the identity, disabling, and emergency retirement all keep a
/// relationship's sequence counter, protection history, remote bundle and
/// operator PSK: a later identity never reuses old generation counters.
/// Disabling also keeps the confirmed key, gate and status; only an
/// emergency retirement discards the confirmed key.
pub proof fn lemma_retirement_keeps_history(r: Relationship)
    ensures
        blocked(r).sequence == r.sequence && blocked(r).prior_pq == r.prior_pq,
        drained(r).sequence == r.sequence && drained(r).prior_pq == r.prior_pq,
        wiped(r).sequence == r.sequence && wiped(r).prior_pq == r.prior_pq,
        blocked(r).remote == r.remote && drained(r).remote == r.remote && wiped(r).remote
            == r.remote,
        blocked(r).operator_psk == r.operator_psk && wiped(r).operator_psk == r.operator_psk,
        drained(r).confirmed == r.confirmed && drained(r).gated == r.gated && drained(r).status
            == r.status,
        blocked(r).confirmed == r.confirmed,
        wiped(r).confirmed is None && wiped(r).pending is None && drained(r).pending is None,
{
}

/// Which of the three updates applies to every relationship.
enum Sweep {
    Block,
    Drain,
    Wipe,
}

spec fn swept(r: Relationship, sweep: Sweep) -> Relationship {
    match sweep {
        Sweep::Block => blocked(r),
        Sweep::Drain => drained(r),
        Sweep::Wipe => wiped(r),
    }
}

/// Every key of `m`, each once.
pub fn key_list<V>(m: &BTreeMap<u64, V>) -> (r: Vec<u64>)
    ensures
        r@.to_set() == m@.dom(),
        r@.no_duplicates(),
{
    let mut out: Vec<u64> = Vec::new();
    let ghost all = m.keys().remaining();
    for k in it: m.keys()
        invariant
            it.seq() == all,
            out@.len() == it.index(),
            forall|i: int| 0 <= i < out@.len() ==> out@[i] == *all[i],
    {
        out.push(*k);
    }
    proof {
        assert(out@ =~= all.map_values(|k: &u64| *k));
        assert(all.map_values(|k: &u64| *k) =~= all.unref());
    }
    out
}

fn sweep_all(m: &mut BTreeMap<u64, Relationship>, sweep: Sweep)
    ensures
        final(m)@.dom() == old(m)@.dom(),
        forall|k: u64| #[trigger]
            old(m)@.contains_key(k) ==> final(m)@[k] == swept(old(m)@[k], sweep),
{
    let keys = key_list(m);
    let ghost initial = m@;
    let mut i: usize = 0;
    while i < keys.len()
        invariant
            i <= keys@.len(),
            keys@.to_set() == initial.dom(),
            keys@.no_duplicates(),
            m@.dom() == initial.dom(),
            forall|x: int| 0 <= x < i ==> #[trigger] m@[keys@[x]] == swept(initial[keys@[x]], sweep),
            forall|x: int| i <= x < keys@.len() ==> #[trigger] m@[keys@[x]] == initial[keys@[x]],
        decreases keys@.len() - i,
    {
        let k = keys[i];
        proof {
            assert(keys@.to_set().contains(k));
        }
        let taken = m.remove(&k);
        let mut r = match taken {
            Some(r) => r,
            None => {
                proof {
                    assert(false);
                }
                return;
            },
        };
        match sweep {
            Sweep::Block => {
                r.gated = true;
                r.status = Status::Blocked;
            },
            Sweep::Drain => {
                r.pending = None;
            },
            Sweep::Wipe => {
                r.pending = None;
                r.confirmed = None;
                r.gated = true;
                r.status = Status::Blocked;
            },
        }
        m.insert(k, r);
        proof {
            assert(m@.dom() =~= initial.dom());
            assert forall|x: int| 0 <= x < keys@.len() && x != i implies keys@[x] != k by {}
        }
        i += 1;
    }
    proof {
        assert forall|k: u64| #[trigger] initial.contains_key(k) implies m@[k] == swept(initial[k], sweep) by {
            assert(keys@.to_set().contains(k));
            let x = choose|x: int| 0 <= x < keys@.len() && keys@[x] == k;
            assert(m@[keys@[x]] == swept(initial[keys@[x]], sweep));
        }
    }
}

/// One endpoint's private state: its identity and registration, its
/// management link, and a relationship per data peer, keyed by the peer's
/// identifier.
#[derive(Clone)]
pub struct EndpointState {
    pub network_id: Binary<16>,
    pub peer_id: Number,
    pub server_id: Number,
    pub server_public_key: Binary<32>,
    pub policy: Policy,
    pub identity: Identity,
    pub enrollment: Enrollment,
    pub registration: Registration,
    pub management: ManagementLink,
    pub relationships: BTreeMap<u64, Relationship>,
}

/// A registration request for the current identity's bundle.
pub open spec fn registration_for(
    s: EndpointState,
    lifecycle: Lifecycle,
    emergency: bool,
    r: Registration,
) -> bool {
    &&& r.expected_revision == Some(s.identity.bundle.bundle_revision)
    &&& r.pq_version == 1
    &&& r.lifecycle == lifecycle
    &&& r.bundle == s.identity.bundle
    &&& r.emergency == emergency
}

/// Whether any relationship has an exchange in progress.
pub open spec fn any_pending(m: Map<u64, Relationship>) -> bool {
    exists|k: u64| #[trigger] m.contains_key(k) && m[k].pending is Some
}

/// Whether `bundle` cannot replace the cached `r.remote`: an older
/// revision, or a different bundle under the same revision.
pub open spec fn stale(r: Relationship, bundle: Bundle) -> bool {
    bundle.bundle_revision@ < r.remote.bundle_revision@ || (bundle.bundle_revision@
        == r.remote.bundle_revision@ && bundle != r.remote)
}

/// The outcome of observing `bundle` for peer `other` (neither this
/// endpoint nor the server) when validating the bundle gives `validated`:
/// a validation error is returned as is; a first sighting of a retired
/// bundle is invalid; a stale revision is a conflict; anything else is
/// accepted.
pub open spec fn observation(
    rels: Map<u64, Relationship>,
    other: u64,
    bundle: Bundle,
    lifecycle: Lifecycle,
    validated: Result<(), Error>,
) -> Result<(), Error> {
    match validated {
        Err(e) => Err(e),
        Ok(()) => if !rels.contains_key(other) {
            if lifecycle == Lifecycle::Retired {
                Err(Error::Invalid)
            } else {
                Ok(())
            }
        } else if stale(rels[other], bundle) {
            Err(Error::Conflict)
        } else {
            Ok(())
        },
    }
}

/// The cache refreshed to `bundle`; an exchange pinned to the superseded
/// bundle ID is dropped. `local_initiator` tells which transcript slot is
/// the remote one.
pub open spec fn refreshed(r: Relationship, bundle: Bundle, local_initiator: bool) -> Relationship {
    let pinned = match r.pending {
        Some(p) => bundle.bundle_id != r.remote.bundle_id && (if local_initiator {
            p.transcript.responder.bundle_id
        } else {
            p.transcript.initiator.bundle_id
        }) == r.remote.bundle_id,
        None => false,
    };
    Relationship {
        remote: bundle,
        pending: if pinned {
            None
        } else {
            r.pending
        },
        ..r
    }
}

/// A retired remote blocks the relationship and retires its exchange; an
/// enabled one unblocks a relationship that is blocked but not gated.
pub open spec fn lifecycle_applied(r: Relationship, lifecycle: Lifecycle) -> Relationship {
    if lifecycle == Lifecycle::Retired {
        Relationship { status: Status::Blocked, pending: None, ..r }
    } else if r.status == Status::Blocked && !r.gated {
        Relationship { status: Status::Advertised, ..r }
    } else {
        r
    }
}

/// What observing a known peer's bundle does to the relationship. A
/// retired peer ends up blocked with no exchange in progress, keeping its
/// history and confirmed key. An enabled peer is never blocked by it: a
/// blocked relationship is unblocked unless gated, and the same bundle seen
/// again keeps the exchange in progress.
pub proof fn lemma_observing_a_peer(r: Relationship, bundle: Bundle, local_initiator: bool)
    ensures
        ({
            let f = lifecycle_applied(refreshed(r, bundle, local_initiator), Lifecycle::Retired);
            &&& f.status == Status::Blocked
            &&& f.pending is None
            &&& f.remote == bundle
            &&& f.sequence == r.sequence
            &&& f.prior_pq == r.prior_pq
            &&& f.confirmed == r.confirmed
            &&& f.gated == r.gated
        }),
        ({
            let f = lifecycle_applied(refreshed(r, bundle, local_initiator), Lifecycle::Enabled);
            &&& f.remote == bundle
            &&& f.status == (if r.status == Status::Blocked && !r.gated {
                Status::Advertised
            } else {
                r.status
            })
            &&& bundle == r.remote ==> f.pending == r.pending
        }),
        // A refresh keeps the exchange in progress unless the bundle ID
        // changes under an exchange pinned to the superseded bundle.
        bundle.bundle_id == r.remote.bundle_id ==> refreshed(r, bundle, local_initiator).pending
            == r.pending,
        (r.pending matches Some(p) && bundle.bundle_id != r.remote.bundle_id && (if local_initiator {
            p.transcript.responder.bundle_id
        } else {
            p.transcript.initiator.bundle_id
        }) == r.remote.bundle_id) ==> refreshed(r, bundle, local_initiator).pending is None,
{
}

/// Observing a valid bundle of a known peer is refused as a conflict when
/// its revision is older than the cached one, or the same revision with
/// other content; a newer revision, or the cached bundle itself, is
/// accepted. A first sighting is accepted only for an enabled peer.
pub proof fn lemma_observation_refuses_replays(
    rels: Map<u64, Relationship>,
    other: u64,
    bundle: Bundle,
    lifecycle: Lifecycle,
)
    ensures
        rels.contains_key(other) && bundle.bundle_revision@ < rels[other].remote.bundle_revision@
            ==> observation(rels, other, bundle, lifecycle, Ok(())) == Err::<(), Error>(
            Error::Conflict,
        ),
        rels.contains_key(other) && bundle.bundle_revision@ == rels[other].remote.bundle_revision@
            && bundle != rels[other].remote ==> observation(rels, other, bundle, lifecycle, Ok(()))
            == Err::<(), Error>(Error::Conflict),
        rels.contains_key(other) && (bundle.bundle_revision@ > rels[other].remote.bundle_revision@
            || bundle == rels[other].remote) ==> observation(rels, other, bundle, lifecycle, Ok(()))
            == Ok::<(), Error>(()),
        !rels.contains_key(other) ==> (observation(rels, other, bundle, lifecycle, Ok(())) is Ok
            <==> lifecycle == Lifecycle::Enabled),
{
}

/// A relationship first created for `bundle`: sequence 1, no operator PSK,
/// nothing confirmed or pending, advertised and never sampled.
pub open spec fn fresh_for(r: Relationship, bundle: Bundle) -> bool {
    &&& r.remote == bundle
    &&& r.sequence@ == 1
    &&& !r.prior_pq
    &&& r.operator_psk_id@ == Seq::new(16, |i: int| 0u8)
    &&& r.operator_psk@ == zeros(32)
    &&& r.confirmed is None
    &&& r.pending is None
    &&& !r.gated
    &&& r.status == Status::Advertised
    &&& r.activity is None
}

/// The relationship with `other` after a successful observation of its
/// advertised `bundle` in `lifecycle`, given the relationships before.
pub open spec fn observed(
    rels: Map<u64, Relationship>,
    other: u64,
    bundle: Bundle,
    lifecycle: Lifecycle,
    local_initiator: bool,
    r: Relationship,
) -> bool {
    if rels.contains_key(other) {
        r == lifecycle_applied(refreshed(rels[other], bundle, local_initiator), lifecycle)
    } else {
        lifecycle == Lifecycle::Enabled && fresh_for(r, bundle)
    }
}

/// The activity record after sampling `(rx, tx)` at `now`: any change
/// from the baseline, or a first sample, is activity.
pub open spec fn sampled(a: Option<Activity>, now: u64, rx: u64, tx: u64) -> Option<Activity> {
    match a {
        Some(old) => if old.rx_bytes == rx && old.tx_bytes == tx {
            Some(old)
        } else {
            Some(Activity { rx_bytes: rx, tx_bytes: tx, last_active_at: now })
        },
        None => Some(Activity { rx_bytes: rx, tx_bytes: tx, last_active_at: now }),
    }
}

/// The state with only its relationships replaced.
pub open spec fn only_relationships_changed(a: EndpointState, b: EndpointState) -> bool {
    &&& a.network_id == b.network_id
    &&& a.peer_id == b.peer_id
    &&& a.server_id == b.server_id
    &&& a.server_public_key == b.server_public_key
    &&& a.policy == b.policy
    &&& a.identity == b.identity
    &&& a.enrollment == b.enrollment
    &&& a.registration == b.registration
    &&& a.management == b.management
}

/// The most relationships one endpoint keeps.
pub const RELATIONSHIP_LIMIT: usize = 10000;

/// What a relationship's exchange in progress must agree with: this
/// network, the pair's identifiers in order, a sequence not beyond the
/// relationship's, at most eight queued messages all sent by this
/// endpoint, and this endpoint's and the remote's current bundles in their
/// transcript slots.
pub open spec fn pending_consistent(s: EndpointState, other: u64, r: Relationship) -> bool {
    match r.pending {
        None => true,
        Some(p) => {
            let t = p.transcript;
            let local_initiator = s.peer_id@ < other;
            &&& t.network_id == s.network_id
            &&& t.initiator_id@ == if local_initiator {
                s.peer_id@
            } else {
                other
            }
            &&& t.responder_id@ == if local_initiator {
                other
            } else {
                s.peer_id@
            }
            &&& t.sequence@ <= r.sequence@
            &&& p.outbox@.len() <= 8
            &&& (if local_initiator {
                t.initiator == s.identity.bundle && t.responder == r.remote
            } else {
                t.responder == s.identity.bundle && t.initiator == r.remote
            })
            &&& forall|i: int|
                0 <= i < p.outbox@.len() ==> (#[trigger] p.outbox@[i]).sender_id@ == s.peer_id@
        },
    }
}

/// The checks of `EndpointState::validate` that need no cryptography.
pub open spec fn endpoint_consistent(s: EndpointState) -> bool {
    &&& s.peer_id@ != s.server_id@
    &&& s.relationships@.len() <= RELATIONSHIP_LIMIT
    &&& !is_zero_secret(s.management.psk@)
    &&& s.registration.bundle == s.identity.bundle
    &&& forall|k: u64| #[trigger]
        s.relationships@.contains_key(k) ==> k != s.peer_id@ && k != s.server_id@
            && pending_consistent(s, k, s.relationships@[k])
}

impl EndpointState {
    fn has_pending(&self) -> (r: bool)
        ensures
            r == any_pending(self.relationships@),
    {
        let keys = key_list(&self.relationships);
        let mut i: usize = 0;
        while i < keys.len()
            invariant
                i <= keys@.len(),
                keys@.to_set() == self.relationships@.dom(),
                forall|x: int|
                    0 <= x < i ==> #[trigger] self.relationships@[keys@[x]].pending is None,
            decreases keys@.len() - i,
        {
            let k = keys[i];
            proof {
                assert(keys@.to_set().contains(k));
            }
            match self.relationships.get(&k) {
                Some(r) => {
                    if r.pending.is_some() {
                        return true;
                    }
                },
                None => {},
            }
            i += 1;
        }
        proof {
            assert forall|k: u64| #[trigger]
                self.relationships@.contains_key(k) implies self.relationships@[k].pending is None by {
                assert(keys@.to_set().contains(k));
                let x = choose|x: int| 0 <= x < keys@.len() && keys@[x] == k;
                assert(self.relationships@[keys@[x]].pending is None);
            }
        }
        false
    }

    fn check_outbox<B: Bridge>(&self, pending: &Pending, bridge: &B) -> (r: Result<(), Error>)
        ensures
            r is Ok ==> forall|i: int|
                0 <= i < pending.outbox@.len() ==> {
                    let m = #[trigger] pending.outbox@[i];
                    &&& m.sender_id@ == self.peer_id@
                    &&& crate::protocol::shape(m) is Ok
                    &&& crate::protocol::ids_bound(m, pending.transcript)
                    &&& crate::protocol::payload_bound(m, pending.transcript)
                },
            pending.outbox@.len() == 0 ==> r == Ok::<(), Error>(()),
    {
        let candidate = pending.candidate.candidate();
        let mut i: usize = 0;
        while i < pending.outbox.len()
            invariant
                i <= pending.outbox@.len(),
                forall|j: int|
                    0 <= j < i ==> {
                        let m = #[trigger] pending.outbox@[j];
                        &&& m.sender_id@ == self.peer_id@
                        &&& crate::protocol::shape(m) is Ok
                        &&& crate::protocol::ids_bound(m, pending.transcript)
                        &&& crate::protocol::payload_bound(m, pending.transcript)
                    },
            decreases pending.outbox@.len() - i,
        {
            let message = &pending.outbox[i];
            if message.sender_id.get() != self.peer_id.get() {
                return Err(Error::Invalid);
            }
            message.authenticate(&pending.transcript, bridge)?;
            message.confirm(&candidate, bridge)?;
            i += 1;
        }
        Ok(())
    }

    fn check_relationship<B: Bridge>(&self, other: u64, relationship: &Relationship, bridge: &B) -> (r:
        Result<(), Error>)
        ensures
            r is Ok ==> other != self.peer_id@ && other != self.server_id@ && pending_consistent(
                *self,
                other,
                *relationship,
            ),
            other == self.peer_id@ || other == self.server_id@ ==> r == Err::<(), Error>(
                Error::Invalid,
            ),
    {
        let peer = self.peer_id.get();
        if other == peer || other == self.server_id.get() {
            return Err(Error::Invalid);
        }
        relationship.remote.validate(bridge)?;
        if let Some(pending) = &relationship.pending {
            let t = &pending.transcript;
            t.validate(bridge)?;
            let local_initiator = peer < other;
            let (low, high) = if local_initiator {
                (peer, other)
            } else {
                (other, peer)
            };
            if !crate::protocol::same_bytes(&t.network_id.0, &self.network_id.0)
                || t.initiator_id.get() != low || t.responder_id.get() != high
                || t.sequence.get() > relationship.sequence.get() || pending.outbox.len() > 8 {
                return Err(Error::Invalid);
            }
            let (local, remote) = if local_initiator {
                (&t.initiator, &t.responder)
            } else {
                (&t.responder, &t.initiator)
            };
            if !local.same(&self.identity.bundle) || !remote.same(&relationship.remote) {
                return Err(Error::Invalid);
            }
            self.check_outbox(pending, bridge)?;
        }
        Ok(())
    }

    /// Checks the whole snapshot: distinct endpoint and server, at most
    /// `RELATIONSHIP_LIMIT` relationships, a valid identity and management
    /// link, a registration for the current bundle, and for every
    /// relationship a valid remote bundle and an exchange in progress that
    /// agrees with this state and whose queued messages all authenticate
    /// and confirm.
    pub fn validate<B: Bridge>(&self, bridge: &B) -> (r: Result<(), Error>)
        ensures
            self.peer_id@ == self.server_id@ || self.relationships@.len() > RELATIONSHIP_LIMIT
                ==> r == Err::<(), Error>(Error::Invalid),
            r is Ok ==> endpoint_consistent(*self),
    {
        if self.peer_id.get() == self.server_id.get() || self.relationships.len()
            > RELATIONSHIP_LIMIT {
            return Err(Error::Invalid);
        }
        self.identity.validate(bridge)?;
        self.management.validate()?;
        if !self.registration.bundle.same(&self.identity.bundle) {
            return Err(Error::Invalid);
        }
        let keys = key_list(&self.relationships);
        let mut i: usize = 0;
        while i < keys.len()
            invariant
                i <= keys@.len(),
                keys@.to_set() == self.relationships@.dom(),
                self.peer_id@ != self.server_id@,
                self.relationships@.len() <= RELATIONSHIP_LIMIT,
                forall|x: int|
                    0 <= x < i ==> {
                        let k = #[trigger] keys@[x];
                        k != self.peer_id@ && k != self.server_id@ && pending_consistent(
                            *self,
                            k,
                            self.relationships@[k],
                        )
                    },
            decreases keys@.len() - i,
        {
            let k = keys[i];
            proof {
                assert(keys@.to_set().contains(k));
            }
            match self.relationships.get(&k) {
                Some(relationship) => {
                    self.check_relationship(k, relationship, bridge)?;
                },
                None => {},
            }
            i += 1;
        }
        proof {
            assert forall|k: u64| #[trigger] self.relationships@.contains_key(k) implies k
                != self.peer_id@ && k != self.server_id@ && pending_consistent(
                *self,
                k,
                self.relationships@[k],
            ) by {
                assert(keys@.to_set().contains(k));
                let x = choose|x: int| 0 <= x < keys@.len() && keys@[x] == k;
                assert(keys@[x] == k);
            }
        }
        Ok(())
    }

    /// Adopts a freshly generated `identity` with the same WireGuard key, a
    /// new bundle ID and the next revision. Refused while any exchange is in
    /// progress. The caller must save this transition before sending its
    /// registration. Every relationship keeps its prior protection and
    /// keys, but is gated and blocked until confirmed again.
    pub fn replace<B: Bridge>(&mut self, identity: Identity, bridge: &B) -> (r: Result<(), Error>)
        ensures
            any_pending(old(self).relationships@) ==> r == Err::<(), Error>(Error::Conflict),
            !any_pending(old(self).relationships@) && (identity.bundle.wg_public_key
                != old(self).identity.bundle.wg_public_key || identity.bundle.bundle_id
                == old(self).identity.bundle.bundle_id || identity.bundle.bundle_revision@
                != old(self).identity.bundle.bundle_revision@ + 1) ==> r == Err::<(), Error>(
                Error::Invalid,
            ),
            r is Err ==> final(self).relationships@ == old(self).relationships@
                && final(self).identity == old(self).identity && final(self).registration
                == old(self).registration && final(self).enrollment == old(self).enrollment,
            r is Ok ==> {
                &&& !any_pending(old(self).relationships@)
                &&& identity.bundle.wg_public_key == old(self).identity.bundle.wg_public_key
                &&& identity.bundle.bundle_id != old(self).identity.bundle.bundle_id
                &&& identity.bundle.bundle_revision@ == old(self).identity.bundle.bundle_revision@
                    + 1
                &&& final(self).identity == identity
                &&& final(self).enrollment == Enrollment::Registering
                &&& final(self).registration == Registration {
                    expected_revision: Some(old(self).identity.bundle.bundle_revision),
                    pq_version: 1,
                    lifecycle: Lifecycle::Enabled,
                    bundle: identity.bundle,
                    emergency: false,
                }
                &&& final(self).relationships@.dom() == old(self).relationships@.dom()
                &&& forall|k: u64| #[trigger]
                    old(self).relationships@.contains_key(k) ==> final(self).relationships@[k]
                        == blocked(old(self).relationships@[k])
            },
            final(self).network_id == old(self).network_id,
            final(self).peer_id == old(self).peer_id,
            final(self).server_id == old(self).server_id,
            final(self).management == old(self).management,
            final(self).policy == old(self).policy,
            final(self).server_public_key == old(self).server_public_key,
    {
        if self.has_pending() {
            return Err(Error::Conflict);
        }
        let current = self.identity.bundle;
        if !crate::protocol::same_bytes(
            &identity.bundle.wg_public_key.0,
            &current.wg_public_key.0,
        ) || crate::protocol::same_bytes(&identity.bundle.bundle_id.0, &current.bundle_id.0) {
            return Err(Error::Invalid);
        }
        let incoming = identity.bundle.bundle_revision.get();
        let next = match current.bundle_revision.next() {
            Ok(n) => n,
            Err(_) => return Err(Error::Invalid),
        };
        if incoming != next.get() {
            return Err(Error::Invalid);
        }
        identity.validate(bridge)?;
        self.registration = Registration {
            expected_revision: Some(current.bundle_revision),
            pq_version: 1,
            lifecycle: Lifecycle::Enabled,
            bundle: identity.bundle,
            emergency: false,
        };
        self.identity = identity;
        self.enrollment = Enrollment::Registering;
        sweep_all(&mut self.relationships, Sweep::Block);
        Ok(())
    }

    /// Accepts the server's record of this endpoint's registration when it
    /// matches what was submitted: the bundle is then advertised, or
    /// retired.
    pub fn accept_registration(&mut self, advertised: &AdvertisedBundle) -> (r: Result<(), Error>)
        ensures
            r is Ok <==> advertised.bundle == old(self).registration.bundle
                && advertised.lifecycle == old(self).registration.lifecycle
                && advertised.pq_version == 1,
            r is Err ==> r == Err::<(), Error>(Error::Conflict) && final(self).enrollment == old(self).enrollment,
            r is Ok ==> final(self).enrollment == if advertised.lifecycle == Lifecycle::Enabled {
                Enrollment::Advertised
            } else {
                Enrollment::Retired
            },
            final(self).registration == old(self).registration,
            final(self).identity == old(self).identity,
            final(self).relationships@ == old(self).relationships@,
    {
        if !advertised.bundle.same(&self.registration.bundle) || advertised.lifecycle
            != self.registration.lifecycle || advertised.pq_version != 1 {
            return Err(Error::Conflict);
        }
        self.enrollment = if advertised.lifecycle == Lifecycle::Enabled {
            Enrollment::Advertised
        } else {
            Enrollment::Retired
        };
        Ok(())
    }

    /// Reconciles a freshly fetched remote bundle (a directory fetch, not
    /// an exchange message). A first sighting creates the relationship,
    /// unless the remote is retired. A strictly newer revision refreshes
    /// the cached copy and drops an exchange pinned to the superseded
    /// bundle; an older revision, or a different bundle under the same
    /// revision, is a replay and refused. A retired remote blocks the
    /// relationship; an enabled one unblocks it unless it is gated.
    pub fn observe_remote<B: Bridge>(
        &mut self,
        other: Number,
        bundle: &Bundle,
        lifecycle: Lifecycle,
        bridge: &B,
    ) -> (r: Result<(), Error>)
        ensures
            other@ == old(self).peer_id@ || other@ == old(self).server_id@ ==> r == Err::<
                (),
                Error,
            >(Error::Invalid),
            !old(self).relationships@.contains_key(other@) && lifecycle == Lifecycle::Retired
                ==> r is Err,
            old(self).relationships@.contains_key(other@) && stale(
                old(self).relationships@[other@],
                *bundle,
            ) ==> r is Err,
            r is Err ==> final(self).relationships@ == old(self).relationships@,
            r is Ok ==> other@ != old(self).peer_id@ && other@ != old(self).server_id@ && if old(self).relationships@.contains_key(other@) {
                final(self).relationships@ == old(self).relationships@.insert(
                    other@,
                    lifecycle_applied(
                        refreshed(
                            old(self).relationships@[other@],
                            *bundle,
                            old(self).peer_id@ < other@,
                        ),
                        lifecycle,
                    ),
                )
            } else {
                &&& lifecycle == Lifecycle::Enabled
                &&& final(self).relationships@.dom() == old(self).relationships@.dom().insert(
                    other@,
                )
                &&& final(self).relationships@.remove(other@) == old(self).relationships@
                &&& fresh_for(final(self).relationships@[other@], *bundle)
            },
            only_relationships_changed(*old(self), *final(self)),
            // A retired peer is blocked and its exchange in progress dropped.
            r is Ok && lifecycle == Lifecycle::Retired ==> {
                &&& final(self).relationships@[other@].status == Status::Blocked
                &&& final(self).relationships@[other@].pending is None
            },
            other@ != old(self).peer_id@ && other@ != old(self).server_id@ ==> exists|
                x448_check: Result<(), Error>,
                signing_check: Result<(), Error>,
            |
                r == #[trigger] observation(
                    old(self).relationships@,
                    other@,
                    *bundle,
                    lifecycle,
                    crate::protocol::bundle_check(*bundle, x448_check, signing_check),
                ),
    {
        let key = other.get();
        if key == self.peer_id.get() || key == self.server_id.get() {
            return Err(Error::Invalid);
        }
        let validated = bundle.validate(bridge);
        let ghost (x448_check, signing_check) = choose|x: Result<(), Error>, s: Result<(), Error>|
            validated == crate::protocol::bundle_check(*bundle, x, s);
        assert(validated == crate::protocol::bundle_check(*bundle, x448_check, signing_check));
        let ghost expected = observation(self.relationships@, other@, *bundle, lifecycle, validated);
        if let Err(e) = validated {
            assert(Err::<(), Error>(e) == expected);
            return Err(e);
        }
        let local_initiator = self.peer_id.get() < key;
        let ghost initial = self.relationships@;
        match self.relationships.remove(&key) {
            None => {
                if lifecycle == Lifecycle::Retired {
                    return Err(Error::Invalid);
                }
                let one = match Number::new(1) {
                    Ok(n) => n,
                    Err(e) => return Err(e),
                };
                let fresh = Relationship {
                    remote: *bundle,
                    sequence: one,
                    prior_pq: false,
                    operator_psk_id: Binary([0u8; 16]),
                    operator_psk: StoredSecret(Secret::from_bytes([0u8; 32])),
                    confirmed: None,
                    pending: None,
                    gated: false,
                    status: Status::Advertised,
                    activity: None,
                };
                proof {
                    assert(fresh.operator_psk_id@ =~= Seq::new(16, |i: int| 0u8));
                    assert(fresh.operator_psk@ =~= zeros(32));
                }
                self.relationships.insert(key, fresh);
                proof {
                    assert(self.relationships@.dom() =~= initial.dom().insert(other@));
                    assert(self.relationships@.remove(other@) =~= initial);
                }
                Ok(())
            },
            Some(mut relationship) => {
                let revision = bundle.bundle_revision.get();
                let cached = relationship.remote.bundle_revision.get();
                if revision < cached || (revision == cached && !bundle.same(&relationship.remote)) {
                    self.relationships.insert(key, relationship);
                    proof {
                        assert(self.relationships@ =~= initial);
                    }
                    return Err(Error::Conflict);
                }
                let previous_id = relationship.remote.bundle_id;
                relationship.remote = *bundle;
                if !crate::protocol::same_bytes(&bundle.bundle_id.0, &previous_id.0) {
                    let pinned = match &relationship.pending {
                        Some(pending) => {
                            let slot = if local_initiator {
                                &pending.transcript.responder
                            } else {
                                &pending.transcript.initiator
                            };
                            crate::protocol::same_bytes(&slot.bundle_id.0, &previous_id.0)
                        },
                        None => false,
                    };
                    if pinned {
                        relationship.pending = None;
                    }
                }
                if lifecycle == Lifecycle::Retired {
                    relationship.status = Status::Blocked;
                    relationship.pending = None;
                } else if relationship.status == Status::Blocked && !relationship.gated {
                    relationship.status = Status::Advertised;
                }
                self.relationships.insert(key, relationship);
                Ok(())
            },
        }
    }

    /// Samples one relationship's WireGuard byte counters. Any difference
    /// from the baseline (an increase, or a reset to another value) is
    /// activity, found without subtracting; a first sample always is. An
    /// unchanged sample leaves the baseline and its time alone.
    pub fn observe_activity(&mut self, other: Number, now: u64, rx_bytes: u64, tx_bytes: u64) -> (r:
        Result<(), Error>)
        ensures
            r is Ok <==> old(self).relationships@.contains_key(other@),
            r is Err ==> r == Err::<(), Error>(Error::Invalid) && final(self).relationships@ == old(self).relationships@,
            r is Ok ==> final(self).relationships@ == old(self).relationships@.insert(
                other@,
                Relationship {
                    activity: sampled(
                        old(self).relationships@[other@].activity,
                        now,
                        rx_bytes,
                        tx_bytes,
                    ),
                    ..old(self).relationships@[other@]
                },
            ),
            only_relationships_changed(*old(self), *final(self)),
    {
        let key = other.get();
        let mut relationship = match self.relationships.remove(&key) {
            Some(r) => r,
            None => return Err(Error::Invalid),
        };
        let changed = match &relationship.activity {
            None => true,
            Some(a) => a.rx_bytes != rx_bytes || a.tx_bytes != tx_bytes,
        };
        if changed {
            relationship.activity = Some(
                Activity { rx_bytes: rx_bytes, tx_bytes: tx_bytes, last_active_at: now },
            );
        }
        self.relationships.insert(key, relationship);
        proof {
            assert(self.relationships@ =~= old(self).relationships@.insert(
                other@,
                Relationship {
                    activity: sampled(
                        old(self).relationships@[other@].activity,
                        now,
                        rx_bytes,
                        tx_bytes,
                    ),
                    ..old(self).relationships@[other@]
                },
            ));
        }
        Ok(())
    }

    /// An administrative disable: submits a retirement of the current
    /// bundle and retires every exchange in progress, but keeps confirmed
    /// keys, sequence counters and protection history until the retirement
    /// is durable. Refused when already retiring or retired.
    pub fn disable(&mut self) -> (r: Result<(), Error>)
        ensures
            r is Err <==> old(self).enrollment == Enrollment::Retiring
                || old(self).registration.lifecycle == Lifecycle::Retired,
            r is Err ==> r == Err::<(), Error>(Error::Conflict) && final(self).registration
                == old(self).registration && final(self).enrollment == old(self).enrollment
                && final(self).relationships@ == old(self).relationships@,
            r is Ok ==> {
                &&& registration_for(*old(self), Lifecycle::Retired, false, final(self).registration)
                &&& final(self).enrollment == Enrollment::Retiring
                &&& final(self).relationships@.dom() == old(self).relationships@.dom()
                &&& forall|k: u64| #[trigger]
                    old(self).relationships@.contains_key(k) ==> final(self).relationships@[k]
                        == drained(old(self).relationships@[k])
            },
            final(self).identity == old(self).identity,
            final(self).management == old(self).management,
            final(self).peer_id == old(self).peer_id,
            final(self).server_id == old(self).server_id,
            final(self).network_id == old(self).network_id,
            final(self).policy == old(self).policy,
            final(self).server_public_key == old(self).server_public_key,
    {
        if self.enrollment == Enrollment::Retiring || self.registration.lifecycle
            == Lifecycle::Retired {
            return Err(Error::Conflict);
        }
        self.registration = Registration {
            expected_revision: Some(self.identity.bundle.bundle_revision),
            pq_version: 1,
            lifecycle: Lifecycle::Retired,
            bundle: self.identity.bundle,
            emergency: false,
        };
        self.enrollment = Enrollment::Retiring;
        sweep_all(&mut self.relationships, Sweep::Drain);
        Ok(())
    }

    /// The escape hatch for lost keys or a stale restored backup: submits
    /// an emergency retirement and blocks every relationship, discarding
    /// its exchange and confirmed key, never to resume them under a later
    /// identity.
    pub fn emergency_retire(&mut self) -> (r: Result<(), Error>)
        ensures
            r is Ok,
            registration_for(*old(self), Lifecycle::Retired, true, final(self).registration),
            final(self).enrollment == Enrollment::Retiring,
            final(self).relationships@.dom() == old(self).relationships@.dom(),
            forall|k: u64| #[trigger]
                old(self).relationships@.contains_key(k) ==> final(self).relationships@[k]
                    == wiped(old(self).relationships@[k]),
            final(self).identity == old(self).identity,
            final(self).management == old(self).management,
            final(self).peer_id == old(self).peer_id,
            final(self).server_id == old(self).server_id,
            final(self).network_id == old(self).network_id,
            final(self).policy == old(self).policy,
            final(self).server_public_key == old(self).server_public_key,
    {
        self.registration = Registration {
            expected_revision: Some(self.identity.bundle.bundle_revision),
            pq_version: 1,
            lifecycle: Lifecycle::Retired,
            bundle: self.identity.bundle,
            emergency: true,
        };
        self.enrollment = Enrollment::Retiring;
        sweep_all(&mut self.relationships, Sweep::Wipe);
        Ok(())
    }
}

/// The server's private state: one management link per peer.
pub struct ServerState {
    pub network_id: Binary<16>,
    pub server_id: Number,
    pub server_public_key: Binary<32>,
    pub links: BTreeMap<u64, ManagementLink>,
}

/// The most links one server keeps.
pub const LINK_LIMIT: usize = 10000;

/// Whether some link's active secret is all zeros.
pub open spec fn some_zero_link(m: Map<u64, ManagementLink>) -> bool {
    exists|k: u64| #[trigger] m.contains_key(k) && is_zero_secret(m[k].psk@)
}

/// The outcome of a rotation step on `peer`'s link: refused for the
/// server itself or an unknown peer.
pub open spec fn known_link(s: ServerState, peer: Number) -> bool {
    peer@ != s.server_id@ && s.links@.contains_key(peer@)
}

impl ServerState {
    /// At most `LINK_LIMIT` links, none for the server itself, and no
    /// all-zero secret.
    pub fn validate(&self) -> (r: Result<(), Error>)
        ensures
            r == if self.links@.len() > LINK_LIMIT || self.links@.contains_key(self.server_id@)
                || some_zero_link(self.links@) {
                Err::<(), Error>(Error::Invalid)
            } else {
                Ok(())
            },
    {
        if self.links.len() > LINK_LIMIT || self.links.contains_key(&self.server_id.get()) {
            return Err(Error::Invalid);
        }
        let keys = key_list(&self.links);
        let mut i: usize = 0;
        while i < keys.len()
            invariant
                i <= keys@.len(),
                keys@.to_set() == self.links@.dom(),
                forall|x: int|
                    0 <= x < i ==> !is_zero_secret(#[trigger] self.links@[keys@[x]].psk@),
            decreases keys@.len() - i,
        {
            let k = keys[i];
            proof {
                assert(keys@.to_set().contains(k));
            }
            match self.links.get(&k) {
                Some(link) => {
                    if link.validate().is_err() {
                        return Err(Error::Invalid);
                    }
                },
                None => {},
            }
            i += 1;
        }
        proof {
            assert forall|k: u64| #[trigger] self.links@.contains_key(k) implies !is_zero_secret(
                self.links@[k].psk@,
            ) by {
                assert(keys@.to_set().contains(k));
                let x = choose|x: int| 0 <= x < keys@.len() && keys@[x] == k;
                assert(!is_zero_secret(self.links@[keys@[x]].psk@));
            }
        }
        Ok(())
    }

    /// Provisions `peer`'s management link once: an existing link is
    /// returned unchanged (and an adopted secret that differs from it is
    /// refused); a new link gets a random provision ID and either the
    /// adopted secret or a random one.
    pub fn provision<R: Random>(&mut self, peer: Number, adopted: Option<Secret<32>>, rng: &mut R) -> (r:
        Result<ManagementLink, Error>)
        ensures
            peer@ == old(self).server_id@ ==> r == Err::<ManagementLink, Error>(Error::Invalid),
            r is Err ==> final(self).links@ == old(self).links@,
            peer@ != old(self).server_id@ && old(self).links@.contains_key(peer@) ==> {
                let existing = old(self).links@[peer@];
                &&& final(self).links@ == old(self).links@
                &&& r == if adopted is Some && adopted->0@ != existing.psk@ {
                    Err::<ManagementLink, Error>(Error::Conflict)
                } else {
                    Ok(existing)
                }
            },
            peer@ != old(self).server_id@ && !old(self).links@.contains_key(peer@) ==> {
                &&& old(self).links@.len() >= LINK_LIMIT ==> r == Err::<ManagementLink, Error>(
                    Error::Conflict,
                )
                &&& adopted is Some && is_zero_secret(adopted->0@) ==> r is Err
                &&& r matches Ok(link) ==> {
                    &&& final(self).links@ == old(self).links@.insert(peer@, link)
                    &&& !link.verified && link.staged is None && link.previous is None
                    &&& !is_zero_secret(link.psk@)
                    &&& (adopted is Some ==> link.psk@ == adopted->0@)
                }
            },
            final(self).server_id == old(self).server_id,
            final(self).network_id == old(self).network_id,
            final(self).server_public_key == old(self).server_public_key,
    {
        let key = peer.get();
        if key == self.server_id.get() {
            return Err(Error::Invalid);
        }
        match self.links.get(&key) {
            Some(existing) => {
                if let Some(k) = &adopted {
                    if !k.same(&existing.psk.0) {
                        return Err(Error::Conflict);
                    }
                }
                Ok(*existing)
            },
            None => {
                if self.links.len() >= LINK_LIMIT {
                    return Err(Error::Conflict);
                }
                let mut link = ManagementLink::generate(rng)?;
                if let Some(secret) = adopted {
                    link.psk = StoredSecret(secret);
                    link.validate()?;
                }
                self.links.insert(key, link);
                Ok(link)
            },
        }
    }

    fn link_of(&self, peer: Number) -> (r: Result<ManagementLink, Error>)
        ensures
            match r {
                Ok(l) => known_link(*self, peer) && l == self.links@[peer@],
                Err(e) => !known_link(*self, peer) && e == Error::Invalid,
            },
    {
        let key = peer.get();
        if key == self.server_id.get() {
            return Err(Error::Invalid);
        }
        match self.links.get(&key) {
            Some(link) => Ok(*link),
            None => Err(Error::Invalid),
        }
    }

    /// Stages a rotation candidate on `peer`'s link without touching its
    /// live secret.
    pub fn stage_rotation<R: Random>(
        &mut self,
        peer: Number,
        adopted: Option<Secret<32>>,
        rng: &mut R,
    ) -> (r: Result<ManagementLink, Error>)
        ensures
            !known_link(*old(self), peer) ==> r == Err::<ManagementLink, Error>(Error::Invalid),
            r is Err ==> final(self).links@ == old(self).links@,
            r matches Ok(l) ==> final(self).links@ == old(self).links@.insert(peer@, l) && l.psk
                == old(self).links@[peer@].psk && l.provision_id == old(self).links@[peer@].provision_id && l.staged is Some,
            known_link(*old(self), peer) && staging_conflicts(old(self).links@[peer@], adopted)
                ==> r == Err::<ManagementLink, Error>(Error::Conflict),
            final(self).server_id == old(self).server_id,
            final(self).network_id == old(self).network_id,
            final(self).server_public_key == old(self).server_public_key,
    {
        let mut link = self.link_of(peer)?;
        link.stage_rotation(adopted, rng)?;
        self.links.insert(peer.get(), link);
        Ok(link)
    }

    /// Replaces `peer`'s live secret with the staged one, keeping the
    /// superseded secret until confirmed or rolled back.
    pub fn apply_rotation(&mut self, peer: Number) -> (r: Result<ManagementLink, Error>)
        ensures
            !known_link(*old(self), peer) ==> r == Err::<ManagementLink, Error>(Error::Invalid),
            known_link(*old(self), peer) && old(self).links@[peer@].staged is None ==> r == Err::<
                ManagementLink,
                Error,
            >(Error::Conflict),
            r is Err ==> final(self).links@ == old(self).links@,
            r matches Ok(l) ==> l == applied(old(self).links@[peer@]) && final(self).links@ == old(self).links@.insert(peer@, l),
            known_link(*old(self), peer) && old(self).links@[peer@].staged is Some ==> r is Ok,
            final(self).server_id == old(self).server_id,
            final(self).network_id == old(self).network_id,
            final(self).server_public_key == old(self).server_public_key,
    {
        let mut link = self.link_of(peer)?;
        link.apply_rotation()?;
        self.links.insert(peer.get(), link);
        Ok(link)
    }

    /// Discards `peer`'s superseded secret once the new one is verified.
    pub fn confirm_rotation(&mut self, peer: Number) -> (r: Result<ManagementLink, Error>)
        ensures
            !known_link(*old(self), peer) ==> r == Err::<ManagementLink, Error>(Error::Invalid),
            known_link(*old(self), peer) && (old(self).links@[peer@].previous is None || !old(self).links@[peer@].verified) ==> r == Err::<ManagementLink, Error>(Error::Conflict),
            r is Err ==> final(self).links@ == old(self).links@,
            r matches Ok(l) ==> l == rotation_confirmed(old(self).links@[peer@]) && final(self).links@ == old(self).links@.insert(peer@, l),
            known_link(*old(self), peer) && old(self).links@[peer@].previous is Some && old(self).links@[peer@].verified ==> r is Ok,
            final(self).server_id == old(self).server_id,
            final(self).network_id == old(self).network_id,
            final(self).server_public_key == old(self).server_public_key,
    {
        let mut link = self.link_of(peer)?;
        link.confirm_rotation()?;
        self.links.insert(peer.get(), link);
        Ok(link)
    }

    /// Restores the secret `peer` had before the rotation began.
    pub fn rollback_rotation(&mut self, peer: Number) -> (r: Result<ManagementLink, Error>)
        ensures
            !known_link(*old(self), peer) ==> r == Err::<ManagementLink, Error>(Error::Invalid),
            known_link(*old(self), peer) && old(self).links@[peer@].previous is None ==> r
                == Err::<ManagementLink, Error>(Error::Conflict),
            r is Err ==> final(self).links@ == old(self).links@,
            r matches Ok(l) ==> l == rolled_back(old(self).links@[peer@]) && final(self).links@
                == old(self).links@.insert(peer@, l),
            known_link(*old(self), peer) && old(self).links@[peer@].previous is Some ==> r is Ok,
            final(self).server_id == old(self).server_id,
            final(self).network_id == old(self).network_id,
            final(self).server_public_key == old(self).server_public_key,
    {
        let mut link = self.link_of(peer)?;
        link.rollback_rotation()?;
        self.links.insert(peer.get(), link);
        Ok(link)
    }

    /// Forces `peer`'s active secret to `secret`, clearing any rotation.
    pub fn force_active<R: Random>(&mut self, peer: Number, secret: Secret<32>, rng: &mut R) -> (r:
        Result<ManagementLink, Error>)
        ensures
            !known_link(*old(self), peer) ==> r == Err::<ManagementLink, Error>(Error::Invalid),
            is_zero_secret(secret@) ==> r is Err,
            r is Err ==> final(self).links@ == old(self).links@,
            r matches Ok(l) ==> {
                &&& final(self).links@ == old(self).links@.insert(peer@, l)
                &&& l.psk@ == secret@
                &&& !l.verified && l.staged is None && l.previous is None
            },
            final(self).server_id == old(self).server_id,
            final(self).network_id == old(self).network_id,
            final(self).server_public_key == old(self).server_public_key,
    {
        let mut link = self.link_of(peer)?;
        link.force_active(secret, rng)?;
        self.links.insert(peer.get(), link);
        Ok(link)
    }
}

/// The directory's view of one peer: its identifier and whether it is
/// disabled.
pub open spec fn needs_link(s: ServerState, peer: (i64, bool)) -> bool {
    !peer.1 && peer.0 != s.server_id@
}

/// Every peer that needs a link has a positive identifier and a link, which
/// holds the secret `adopted` gives for it, if any.
pub open spec fn provisioned(s: ServerState, peers: Seq<(i64, bool)>, adopted: Map<u64, Secret<32>>) -> bool {
    forall|i: int|
        0 <= i < peers.len() && needs_link(s, #[trigger] peers[i]) ==> {
            &&& peers[i].0 > 0
            &&& s.links@.contains_key(peers[i].0 as u64)
            &&& (adopted.contains_key(peers[i].0 as u64) ==> s.links@[peers[i].0 as u64].psk@
                == adopted[peers[i].0 as u64]@)
        }
}

/// `k` is the identifier of some peer in `peers` that needs a link.
pub open spec fn needed_key(s: ServerState, peers: Seq<(i64, bool)>, k: u64) -> bool {
    exists|i: int| 0 <= i < peers.len() && needs_link(s, #[trigger] peers[i]) && peers[i].0 > 0 && peers[i].0 as u64 == k
}

impl ServerState {
    /// The first enabled peer, other than the server, without a management
    /// link; such a peer needs independent enrollment before the server
    /// may serve.
    pub fn missing_link(&self, peers: &[(i64, bool)]) -> (r: Option<i64>)
        ensures
            match r {
                Some(id) => exists|i: int|
                    0 <= i < peers@.len() && peers@[i].0 == id && needs_link(*self, peers@[i])
                        && !(id > 0 && self.links@.contains_key(id as u64)),
                None => forall|i: int|
                    0 <= i < peers@.len() && needs_link(*self, #[trigger] peers@[i]) ==> peers@[i].0
                        > 0 && self.links@.contains_key(peers@[i].0 as u64),
            },
    {
        let server = self.server_id.get();
        let mut i: usize = 0;
        while i < peers.len()
            invariant
                i <= peers@.len(),
                server == self.server_id@,
                1 <= server,
                forall|j: int|
                    0 <= j < i && needs_link(*self, #[trigger] peers@[j]) ==> peers@[j].0 > 0
                        && self.links@.contains_key(peers@[j].0 as u64),
            decreases peers@.len() - i,
        {
            let (id, disabled) = peers[i];
            if !disabled && !(id > 0 && id as u64 == server) {
                if id <= 0 || !self.links.contains_key(&(id as u64)) {
                    proof {
                        assert(peers@[i as int].0 == id && needs_link(*self, peers@[i as int]));
                    }
                    return Some(id);
                }
            }
            i += 1;
        }
        None
    }

    /// Whether the state belongs to this network and this server key.
    pub fn belongs_to(&self, network_id: &Binary<16>, public_key: &[u8; 32]) -> (r: bool)
        ensures
            r == (self.network_id == *network_id && self.server_public_key@ == public_key@),
    {
        crate::protocol::same_bytes(&self.network_id.0, &network_id.0)
            && crate::protocol::same_bytes(&self.server_public_key.0, public_key)
    }

    /// The enrollment artifact for `peer`'s provisioned link.
    pub fn enrollment(&self, peer: i64) -> (r: Result<crate::enrollment::Enrollment, &'static str>)
        ensures
            r matches Ok(e) ==> {
                &&& peer > 0
                &&& self.links@.contains_key(peer as u64)
                &&& e.peer_id == peer
                &&& e.server_id == self.server_id@
                &&& e.network_id@ == self.network_id@
                &&& e.provision_id@ == self.links@[peer as u64].provision_id@
                &&& e.psk@ == self.links@[peer as u64].psk@
            },
            !(peer > 0 && self.links@.contains_key(peer as u64)) ==> r is Err,
            peer > 0 && self.links@.contains_key(peer as u64) ==> (r is Ok <==> !is_zero_secret(
                self.links@[peer as u64].psk@,
            )),
    {
        if peer <= 0 {
            return Err("peer has no provisioned management link");
        }
        let link = match self.links.get(&(peer as u64)) {
            Some(l) => l,
            None => return Err("peer has no provisioned management link"),
        };
        let psk = crate::enrollment::SecretKey::from_bytes(link.psk.0.0)?;
        Ok(
            crate::enrollment::Enrollment {
                network_id: self.network_id.0,
                provision_id: link.provision_id.0,
                peer_id: peer,
                server_id: self.server_id.get() as i64,
                psk: psk,
            },
        )
    }

    /// Marks `peer`'s link verified after an authenticated request over it;
    /// true when it was not verified before, so the state must be saved.
    pub fn mark_verified(&mut self, peer: i64) -> (r: Result<bool, Error>)
        ensures
            !(peer > 0 && old(self).links@.contains_key(peer as u64)) ==> r == Err::<bool, Error>(Error::Invalid) && final(self).links@ == old(self).links@,
            peer > 0 && old(self).links@.contains_key(peer as u64) ==> r is Ok,
            r matches Ok(changed) ==> {
                let l = old(self).links@[peer as u64];
                &&& changed == !l.verified
                &&& final(self).links@ == old(self).links@.insert(
                    peer as u64,
                    ManagementLink { verified: true, ..l },
                )
            },
            final(self).server_id == old(self).server_id,
            final(self).network_id == old(self).network_id,
            final(self).server_public_key == old(self).server_public_key,
    {
        if peer <= 0 {
            return Err(Error::Invalid);
        }
        let key = peer as u64;
        let mut link = match self.links.get(&key) {
            Some(l) => *l,
            None => return Err(Error::Invalid),
        };
        let changed = !link.verified;
        link.verified = true;
        self.links.insert(key, link);
        proof {
            if !changed {
                assert(link == old(self).links@[key]);
            }
        }
        Ok(changed)
    }

    /// Provisions a link for every enabled peer other than the server,
    /// adopting the secret `adopted` holds for it, if any.
    pub fn provision_peers<R: Random>(
        &mut self,
        peers: &[(i64, bool)],
        adopted: &BTreeMap<u64, Secret<32>>,
        rng: &mut R,
    ) -> (r: Result<(), Error>)
        ensures
            r is Ok ==> forall|i: int|
                0 <= i < peers@.len() && needs_link(*old(self), #[trigger] peers@[i])
                    && peers@[i].0 > 0 ==> final(self).links@.contains_key(peers@[i].0 as u64),
            r is Ok ==> forall|k: u64| #[trigger]
                old(self).links@.contains_key(k) ==> final(self).links@.contains_key(k)
                    && final(self).links@[k] == old(self).links@[k],
            final(self).server_id == old(self).server_id,
            final(self).network_id == old(self).network_id,
            final(self).server_public_key == old(self).server_public_key,
            // On success every needing peer is linked, with the adopted
            // secret where one is given, and no other link was added.
            r is Ok ==> provisioned(*final(self), peers@, adopted@),
            r is Ok ==> forall|k: u64| #[trigger]
                final(self).links@.contains_key(k) ==> old(self).links@.contains_key(k)
                    || needed_key(*old(self), peers@, k),
            // A run over peers that are all linked already succeeds and
            // changes nothing.
            provisioned(*old(self), peers@, adopted@) ==> r is Ok && final(self).links@
                == old(self).links@,
    {
        let server = self.server_id.get();
        let ghost initial = self.links@;
        let mut i: usize = 0;
        while i < peers.len()
            invariant
                i <= peers@.len(),
                server == self.server_id@,
                1 <= server,
                self.server_id == old(self).server_id,
                self.network_id == old(self).network_id,
                self.server_public_key == old(self).server_public_key,
                initial == old(self).links@,
                forall|k: u64| #[trigger]
                    initial.contains_key(k) ==> self.links@.contains_key(k) && self.links@[k]
                        == initial[k],
                forall|j: int|
                    0 <= j < i && needs_link(*old(self), #[trigger] peers@[j]) && peers@[j].0 > 0
                        ==> self.links@.contains_key(peers@[j].0 as u64),
                forall|j: int|
                    0 <= j < i && needs_link(*old(self), #[trigger] peers@[j]) ==> {
                        &&& peers@[j].0 > 0
                        &&& self.links@.contains_key(peers@[j].0 as u64)
                        &&& (adopted@.contains_key(peers@[j].0 as u64) ==> self.links@[peers@[j].0 as u64].psk@
                            == adopted@[peers@[j].0 as u64]@)
                    },
                forall|k: u64| #[trigger]
                    self.links@.contains_key(k) ==> initial.contains_key(k) || needed_key(
                        *old(self),
                        peers@,
                        k,
                    ),
                provisioned(*old(self), peers@, adopted@) ==> self.links@ == initial,
            decreases peers@.len() - i,
        {
            let (id, disabled) = peers[i];
            if !disabled && !(id > 0 && id as u64 == server) {
                if id <= 0 {
                    return Err(Error::Invalid);
                }
                proof {
                    assert(needs_link(*old(self), peers@[i as int]));
                }
                let number = match Number::new(id as u64) {
                    Ok(n) => n,
                    Err(e) => return Err(e),
                };
                let secret = match adopted.get(&(id as u64)) {
                    Some(s) => Some(*s),
                    None => None,
                };
                match self.provision(number, secret, rng) {
                    Ok(_) => {},
                    Err(e) => return Err(e),
                }
            }
            i += 1;
        }
        Ok(())
    }
}

/// Whether every identity in an adoption file is an enabled peer other
/// than the server.
pub fn adoption_ok(adopted: &BTreeMap<u64, Secret<32>>, peers: &[(i64, bool)], server: i64) -> (r: bool)
    ensures
        r == forall|k: u64| #[trigger]
            adopted@.contains_key(k) ==> exists|i: int|
                0 <= i < peers@.len() && peers@[i].0 as u64 == k && !peers@[i].1 && peers@[i].0
                    != server,
{
    let keys = key_list(adopted);
    let mut x: usize = 0;
    while x < keys.len()
        invariant
            x <= keys@.len(),
            keys@.to_set() == adopted@.dom(),
            forall|y: int|
                0 <= y < x ==> exists|i: int|
                    0 <= i < peers@.len() && peers@[i].0 as u64 == #[trigger] keys@[y]
                        && !peers@[i].1 && peers@[i].0 != server,
        decreases keys@.len() - x,
    {
        let k = keys[x];
        let mut found = false;
        let mut i: usize = 0;
        while i < peers.len()
            invariant
                i <= peers@.len(),
                found ==> exists|j: int|
                    0 <= j < peers@.len() && peers@[j].0 as u64 == k && !peers@[j].1
                        && peers@[j].0 != server,
                !found ==> forall|j: int|
                    0 <= j < i ==> !(#[trigger] peers@[j].0 as u64 == k && !peers@[j].1
                        && peers@[j].0 != server),
            decreases peers@.len() - i,
        {
            let (id, disabled) = peers[i];
            if id as u64 == k && !disabled && id != server {
                found = true;
            }
            i += 1;
        }
        if !found {
            proof {
                assert(keys@.to_set().contains(k));
            }
            return false;
        }
        x += 1;
    }
    proof {
        assert forall|k: u64| #[trigger] adopted@.contains_key(k) implies exists|i: int|
            0 <= i < peers@.len() && peers@[i].0 as u64 == k && !peers@[i].1 && peers@[i].0
                != server by {
            assert(keys@.to_set().contains(k));
            let y = choose|y: int| 0 <= y < keys@.len() && keys@[y] == k;
            assert(keys@[y] == k);
        }
    }
    true
}

} // verus!

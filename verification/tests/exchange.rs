use innernet_rp::api::{AdvertisedBundle, Exchange, Lifecycle, Registration};
use innernet_rp::crypto::{
    hybrid_keypair, random, signing_keypair, Bridge, HybridPublic, HybridSecret,
    HybridShared, Random, Secret,
};
use innernet_rp::engine::{Action, FakeInstaller};
use innernet_rp::protocol::{
    Binary, Bundle, Decision, Kind, Number, Phase, Transcript,
};
use innernet_rp::state::{
    adoption_ok, CandidateSecrets, Confirmed, EndpointState, Enrollment, Identity, ManagementLink, Pending,
    Policy, Relationship, ServerState, Status, StoredSecret,
};
use innernet_rp::Error;
use sha2::{Digest, Sha256};
use std::cell::Cell;
use std::collections::BTreeMap;

/// A deterministic stand-in for the native hybrid KEM and signature
/// bridge: every operation is a SHA-256 construction, so both sides of an
/// exchange agree exactly when the real primitives would.
struct ToyBridge {
    counter: Cell<u64>,
}

fn toy() -> ToyBridge {
    ToyBridge { counter: Cell::new(0) }
}

fn digest(parts: &[&[u8]]) -> [u8; 32] {
    let mut hasher = Sha256::new();
    for part in parts {
        hasher.update(part);
    }
    hasher.finalize().into()
}

fn expand<const N: usize>(label: &[u8], seed: &[u8]) -> [u8; N] {
    let mut out = [0u8; N];
    for (i, chunk) in out.chunks_mut(32).enumerate() {
        let block = digest(&[label, seed, &(i as u64).to_be_bytes()]);
        chunk.copy_from_slice(&block[..chunk.len()]);
    }
    out
}

fn kem_public_from(seed: &[u8]) -> [u8; 1568] {
    let mut kem: [u8; 1568] = expand(b"kem", seed);
    for (i, byte) in kem.iter_mut().enumerate() {
        match i % 3 {
            1 => *byte %= 13,
            2 => *byte %= 200,
            _ => {}
        }
    }
    kem
}

fn x448_public_of(secret: &[u8; 56]) -> [u8; 56] {
    expand(b"x448-public", secret)
}

fn sign_public_of(private: &[u8; 66]) -> [u8; 67] {
    let mut public = [2u8; 67];
    let body: [u8; 66] = expand(b"sign-public", private);
    public[1..].copy_from_slice(&body);
    public
}

fn toy_shared(ct: &[u8; 1624], kem: &[u8], x448: &[u8; 56]) -> HybridShared {
    HybridShared {
        kem: Secret::from_bytes(digest(&[b"kem-shared", &ct[..1568], kem])),
        x448: Secret::from_bytes(expand(b"dh-shared", &[&ct[1568..], &x448[..]].concat())),
    }
}

impl Bridge for ToyBridge {
    fn hybrid_keygen(&self, seed: &Secret<64>) -> Result<(HybridPublic, HybridSecret), Error> {
        let kem = kem_public_from(&seed.0);
        let mut kem_secret = [0u8; 3168];
        kem_secret[..1568].copy_from_slice(&kem);
        let x448_secret: [u8; 56] = expand(b"x448-secret", &seed.0);
        Ok((
            HybridPublic { kem, x448: x448_public_of(&x448_secret) },
            HybridSecret {
                kem: Secret::from_bytes(kem_secret),
                x448: Secret::from_bytes(x448_secret),
            },
        ))
    }

    fn hybrid_public(&self, secret: &HybridSecret) -> Result<HybridPublic, Error> {
        let mut kem = [0u8; 1568];
        kem.copy_from_slice(&secret.kem.0[..1568]);
        Ok(HybridPublic { kem, x448: x448_public_of(&secret.x448.0) })
    }

    fn x448_validate(&self, public: &[u8; 56]) -> Result<(), Error> {
        if public.iter().all(|b| *b == 0) {
            Err(Error::Crypto)
        } else {
            Ok(())
        }
    }

    fn hybrid_encapsulate(&self, public: &HybridPublic) -> Result<([u8; 1624], HybridShared), Error> {
        let n = self.counter.get() + 1;
        self.counter.set(n);
        let ct: [u8; 1624] = expand(b"ciphertext", &[&public.kem[..], &n.to_be_bytes()].concat());
        let x448 = public.x448;
        Ok((ct, toy_shared(&ct, &public.kem, &x448)))
    }

    fn hybrid_decapsulate(
        &self,
        ciphertext: &[u8; 1624],
        private: &HybridSecret,
    ) -> Result<HybridShared, Error> {
        let public = self.hybrid_public(private)?;
        Ok(toy_shared(ciphertext, &public.kem, &public.x448))
    }

    fn hash(&self, data: &[u8]) -> Result<[u8; 32], Error> {
        Ok(digest(&[data]))
    }

    fn hmac(&self, key: &Secret<32>, data: &[u8]) -> Result<[u8; 32], Error> {
        Ok(digest(&[b"hmac", &key.0, data]))
    }

    fn hkdf(&self, ikm: &[u8; 120], salt: &[u8; 32], info: &[u8]) -> Result<Secret<32>, Error> {
        Ok(Secret::from_bytes(digest(&[b"hkdf", ikm, salt, info])))
    }

    fn sign_public(&self, private: &Secret<66>) -> Result<[u8; 67], Error> {
        Ok(sign_public_of(&private.0))
    }

    fn sign_validate(&self, public: &[u8; 67]) -> Result<(), Error> {
        if public[0] == 2 || public[0] == 3 {
            Ok(())
        } else {
            Err(Error::Crypto)
        }
    }

    fn sign(&self, private: &Secret<66>, data: &[u8]) -> Result<[u8; 132], Error> {
        let public = sign_public_of(&private.0);
        Ok(expand(b"signature", &[&public[..], data].concat()))
    }

    fn verify(&self, public: &[u8; 67], signature: &[u8; 132], data: &[u8]) -> Result<(), Error> {
        let expected: [u8; 132] = expand(b"signature", &[&public[..], data].concat());
        if &expected == signature {
            Ok(())
        } else {
            Err(Error::Crypto)
        }
    }
}

/// A reproducible random source: a counter run through SHA-256.
struct Counter(u64);

impl Random for Counter {
    fn fill(&mut self, output: &mut [u8]) -> Result<(), Error> {
        for chunk in output.chunks_mut(32) {
            self.0 += 1;
            let block = digest(&[b"rng", &self.0.to_be_bytes()]);
            chunk.copy_from_slice(&block[..chunk.len()]);
        }
        Ok(())
    }
}

struct Fail;

impl Random for Fail {
    fn fill(&mut self, _: &mut [u8]) -> Result<(), Error> {
        Err(Error::Random)
    }
}

fn n(v: u64) -> Number {
    Number::new(v).unwrap()
}

fn identity(wg: u8, revision: u64, rng: &mut Counter) -> Identity {
    Identity::generate(Binary([wg; 32]), n(revision), rng, &toy()).unwrap()
}

fn base_state(peer_id: u64, server_id: u64, rng: &mut Counter) -> EndpointState {
    let identity = identity(7, 1, rng);
    EndpointState {
        network_id: Binary([1; 16]),
        peer_id: n(peer_id),
        server_id: n(server_id),
        server_public_key: Binary([9; 32]),
        policy: Policy::Strict,
        registration: Registration {
            expected_revision: None,
            pq_version: 1,
            lifecycle: Lifecycle::Enabled,
            bundle: identity.bundle,
            emergency: false,
        },
        identity,
        enrollment: Enrollment::Registering,
        management: ManagementLink::generate(rng).unwrap(),
        relationships: BTreeMap::new(),
    }
}

fn dummy_pending(local: &Bundle, remote: &Bundle, initiator_is_local: bool) -> Pending {
    let (initiator, responder) = if initiator_is_local {
        (*local, *remote)
    } else {
        (*remote, *local)
    };
    Pending {
        transcript: Transcript {
            network_id: Binary([1; 16]),
            initiator_id: n(1),
            responder_id: n(2),
            initiator,
            responder,
            sequence: n(1),
            exchange_id: Binary([3; 16]),
            operator_psk_id: Binary([0; 16]),
            ciphertext: Binary([0; 1624]),
        },
        candidate: CandidateSecrets {
            psk: StoredSecret(Secret::from_bytes([0; 32])),
            initiator_confirmation: StoredSecret(Secret::from_bytes([1; 32])),
            responder_confirmation: StoredSecret(Secret::from_bytes([2; 32])),
        },
        decision: Decision::default(),
        outbox: vec![],
        installation_intent: false,
        installed: false,
        confirmed: false,
        attempts: 0,
        next_retry_at: 0,
    }
}

fn relationship(remote: Bundle, sequence: u64, status: Status, pending: Option<Pending>) -> Relationship {
    Relationship {
        remote,
        sequence: n(sequence),
        prior_pq: true,
        operator_psk_id: Binary([0; 16]),
        operator_psk: StoredSecret(Secret::from_bytes([0; 32])),
        confirmed: None,
        pending,
        gated: false,
        status,
        activity: None,
    }
}

#[test]
fn complete_identity_validates_and_replacement_needs_a_newer_revision() {
    let mut rng = Counter(0);
    let bridge = toy();
    let mut state = base_state(2, 1, &mut rng);
    state.validate(&bridge).unwrap();
    state.identity.validate(&bridge).unwrap();
    // A replacement at the same revision is refused.
    let same = identity(7, 1, &mut rng);
    assert!(state.replace(same, &bridge).is_err());
    let next = identity(7, 2, &mut rng);
    state.replace(next, &bridge).unwrap();
    state.validate(&bridge).unwrap();
    assert!(state.registration.expected_revision.is_some());
    let response = AdvertisedBundle {
        pq_version: 1,
        lifecycle: Lifecycle::Enabled,
        bundle: state.identity.bundle,
    };
    state.accept_registration(&response).unwrap();
    assert_eq!(state.enrollment, Enrollment::Advertised);
}

#[test]
fn observe_remote_refreshes_cache_and_invalidates_pinned_pending_work() {
    let mut rng = Counter(0);
    let bridge = toy();
    let mut state = base_state(2, 1, &mut rng);
    let other = n(3);
    let old_remote = identity(8, 5, &mut rng).bundle;
    let pending = dummy_pending(&state.identity.bundle, &old_remote, true);
    state
        .relationships
        .insert(3, relationship(old_remote, 1, Status::Advertised, Some(pending)));

    state.observe_remote(other, &old_remote, Lifecycle::Enabled, &bridge).unwrap();
    assert!(state.relationships[&3].pending.is_some());

    let new_remote = identity(8, 6, &mut rng).bundle;
    state.observe_remote(other, &new_remote, Lifecycle::Enabled, &bridge).unwrap();
    assert_eq!(state.relationships[&3].remote, new_remote);
    assert!(state.relationships[&3].pending.is_none());

    assert!(state.observe_remote(other, &old_remote, Lifecycle::Enabled, &bridge).is_err());
    assert_eq!(state.relationships[&3].remote, new_remote);

    state.observe_remote(other, &new_remote, Lifecycle::Retired, &bridge).unwrap();
    assert_eq!(state.relationships[&3].status, Status::Blocked);

    let newer_remote = identity(8, 7, &mut rng).bundle;
    state.observe_remote(other, &newer_remote, Lifecycle::Enabled, &bridge).unwrap();
    assert_eq!(state.relationships[&3].status, Status::Advertised);

    let peer_id = state.peer_id;
    let server_id = state.server_id;
    assert!(state.observe_remote(peer_id, &newer_remote, Lifecycle::Enabled, &bridge).is_err());
    assert!(state.observe_remote(server_id, &newer_remote, Lifecycle::Enabled, &bridge).is_err());
}

#[test]
fn emergency_retirement_blocks_relationships_and_permits_a_fresh_identity() {
    let mut rng = Counter(0);
    let bridge = toy();
    let mut state = base_state(2, 1, &mut rng);
    let old_revision = state.identity.bundle.bundle_revision;
    let remote = identity(8, 5, &mut rng).bundle;
    let pending = dummy_pending(&state.identity.bundle, &remote, true);
    state
        .relationships
        .insert(3, relationship(remote, 4, Status::Confirmed, Some(pending)));

    state.emergency_retire().unwrap();
    assert_eq!(state.enrollment, Enrollment::Retiring);
    assert_eq!(state.registration.lifecycle, Lifecycle::Retired);
    assert!(state.registration.emergency);
    assert_eq!(state.registration.expected_revision, Some(old_revision));
    let relationship = &state.relationships[&3];
    assert!(relationship.pending.is_none());
    assert!(relationship.gated);
    assert_eq!(relationship.status, Status::Blocked);
    assert_eq!(relationship.sequence, n(4));

    let retired = AdvertisedBundle {
        pq_version: 1,
        lifecycle: Lifecycle::Retired,
        bundle: state.registration.bundle,
    };
    state.accept_registration(&retired).unwrap();
    assert_eq!(state.enrollment, Enrollment::Retired);

    let fresh = Identity::generate(Binary([7; 32]), old_revision.next().unwrap(), &mut rng, &bridge)
        .unwrap();
    state.replace(fresh, &bridge).unwrap();
    assert_eq!(state.enrollment, Enrollment::Registering);
}

#[test]
fn explicit_disable_retains_recovery_state_and_re_enable_never_resets_it() {
    let mut rng = Counter(0);
    let bridge = toy();
    let mut state = base_state(2, 1, &mut rng);
    let old_revision = state.identity.bundle.bundle_revision;
    let remote = identity(8, 5, &mut rng).bundle;
    let confirmed = Confirmed {
        local_bundle_id: Binary([0; 16]),
        remote_bundle_id: Binary([0; 16]),
        sequence: n(4),
        exchange_id: Binary([0; 16]),
        transcript_hash: Binary([0; 32]),
        psk: StoredSecret(Secret::from_bytes([9; 32])),
        completed_at: 100,
    };
    let pending = dummy_pending(&state.identity.bundle, &remote, true);
    let mut r = relationship(remote, 4, Status::Confirmed, Some(pending));
    r.confirmed = Some(confirmed);
    state.relationships.insert(3, r);

    state.disable().unwrap();
    assert_eq!(state.enrollment, Enrollment::Retiring);
    assert_eq!(state.registration.lifecycle, Lifecycle::Retired);
    assert!(!state.registration.emergency);
    let relationship = &state.relationships[&3];
    assert!(relationship.pending.is_none());
    assert!(relationship.confirmed.is_some());
    assert!(relationship.prior_pq);
    assert!(!relationship.gated);
    assert_eq!(relationship.status, Status::Confirmed);
    assert_eq!(relationship.sequence, n(4));

    assert!(state.disable().is_err());

    let retired = AdvertisedBundle {
        pq_version: 1,
        lifecycle: Lifecycle::Retired,
        bundle: state.registration.bundle,
    };
    state.accept_registration(&retired).unwrap();
    assert_eq!(state.enrollment, Enrollment::Retired);

    let fresh = Identity::generate(Binary([7; 32]), old_revision.next().unwrap(), &mut rng, &bridge)
        .unwrap();
    state.replace(fresh, &bridge).unwrap();
    assert_eq!(state.enrollment, Enrollment::Registering);
    let relationship = &state.relationships[&3];
    assert_eq!(relationship.sequence, n(4));
    assert!(relationship.prior_pq);
    assert!(relationship.gated);
}

fn empty_server() -> ServerState {
    ServerState {
        network_id: Binary([1; 16]),
        server_id: n(9),
        server_public_key: Binary([1; 32]),
        links: BTreeMap::new(),
    }
}

#[test]
fn management_provisioning_is_per_peer_idempotent_and_preserves_adopted_keys() {
    let mut rng = Counter(0);
    let mut server = empty_server();
    let a = n(1);
    let b = n(2);
    server.provision(a, Some(Secret::from_bytes([7; 32])), &mut rng).unwrap();
    let first = server.links[&1];
    server.provision(a, None, &mut rng).unwrap();
    assert_eq!(server.links[&1].provision_id, first.provision_id);
    assert!(server.links[&1].psk.0.same(&first.psk.0));
    server.provision(b, None, &mut rng).unwrap();
    assert!(!server.links[&2].psk.0.same(&first.psk.0));
    assert!(server.provision(a, Some(Secret::from_bytes([8; 32])), &mut rng).is_err());
    let server_id = server.server_id;
    assert!(server.provision(server_id, None, &mut rng).is_err());
    server.validate().unwrap();
}

fn server_with_one_link(rng: &mut Counter) -> (ServerState, Number) {
    let mut server = empty_server();
    let a = n(1);
    server.provision(a, Some(Secret::from_bytes([7; 32])), rng).unwrap();
    (server, a)
}

#[test]
fn rotation_requires_staging_first_and_apply_retains_the_superseded_secret() {
    let mut rng = Counter(0);
    let (mut server, a) = server_with_one_link(&mut rng);
    let first_psk = server.links[&1].psk;
    let first_provision_id = server.links[&1].provision_id;

    assert!(matches!(server.apply_rotation(a), Err(Error::Conflict)));
    assert!(matches!(server.confirm_rotation(a), Err(Error::Conflict)));
    assert!(matches!(server.rollback_rotation(a), Err(Error::Conflict)));

    server.stage_rotation(a, Some(Secret::from_bytes([8; 32])), &mut rng).unwrap();
    assert!(server.links[&1].psk.0.same(&first_psk.0));
    server.stage_rotation(a, Some(Secret::from_bytes([8; 32])), &mut rng).unwrap();
    assert!(matches!(
        server.stage_rotation(a, Some(Secret::from_bytes([9; 32])), &mut rng),
        Err(Error::Conflict)
    ));

    server.apply_rotation(a).unwrap();
    assert!(server.links[&1].psk.0.same(&Secret::from_bytes([8; 32])));
    assert_ne!(server.links[&1].provision_id, first_provision_id);
    assert!(!server.links[&1].verified);
    let previous = server.links[&1].previous.unwrap();
    assert!(previous.psk.0.same(&first_psk.0));
    assert_eq!(previous.provision_id, first_provision_id);
    server.validate().unwrap();
}

#[test]
fn confirm_rotation_requires_verified_and_then_drops_the_superseded_secret() {
    let mut rng = Counter(0);
    let (mut server, a) = server_with_one_link(&mut rng);
    server.stage_rotation(a, None, &mut rng).unwrap();
    server.apply_rotation(a).unwrap();

    assert!(matches!(server.confirm_rotation(a), Err(Error::Conflict)));
    assert!(server.links[&1].previous.is_some());

    server.links.get_mut(&1).unwrap().verified = true;
    server.confirm_rotation(a).unwrap();
    assert!(server.links[&1].previous.is_none());
    assert!(matches!(server.confirm_rotation(a), Err(Error::Conflict)));
    server.validate().unwrap();
}

#[test]
fn rollback_rotation_restores_the_prior_secret_as_already_verified() {
    let mut rng = Counter(0);
    let (mut server, a) = server_with_one_link(&mut rng);
    let first_psk = server.links[&1].psk;
    let first_provision_id = server.links[&1].provision_id;
    server.stage_rotation(a, None, &mut rng).unwrap();
    server.apply_rotation(a).unwrap();
    assert!(!server.links[&1].psk.0.same(&first_psk.0));

    server.rollback_rotation(a).unwrap();
    assert!(server.links[&1].psk.0.same(&first_psk.0));
    assert_eq!(server.links[&1].provision_id, first_provision_id);
    assert!(server.links[&1].verified);
    assert!(server.links[&1].staged.is_none());
    assert!(server.links[&1].previous.is_none());
    server.validate().unwrap();
}

#[test]
fn force_active_repairs_a_mismatched_installation_unconditionally() {
    let mut rng = Counter(0);
    let (mut server, a) = server_with_one_link(&mut rng);
    server.stage_rotation(a, None, &mut rng).unwrap();
    server.force_active(a, Secret::from_bytes([42; 32]), &mut rng).unwrap();
    assert!(server.links[&1].psk.0.same(&Secret::from_bytes([42; 32])));
    assert!(!server.links[&1].verified);
    assert!(server.links[&1].staged.is_none());
    assert!(server.links[&1].previous.is_none());
    server.validate().unwrap();
}

#[test]
fn rotation_on_an_unprovisioned_or_server_peer_is_rejected() {
    let mut rng = Counter(0);
    let (mut server, _a) = server_with_one_link(&mut rng);
    assert!(matches!(server.stage_rotation(n(2), None, &mut rng), Err(Error::Invalid)));
    let server_id = server.server_id;
    assert!(matches!(server.stage_rotation(server_id, None, &mut rng), Err(Error::Invalid)));
}

#[test]
fn observe_activity_records_first_observation_and_only_changed_samples() {
    let mut rng = Counter(0);
    let bridge = toy();
    let mut state = base_state(2, 1, &mut rng);
    let other = n(3);
    let remote = identity(8, 5, &mut rng).bundle;
    state.observe_remote(other, &remote, Lifecycle::Enabled, &bridge).unwrap();
    assert!(state.relationships[&3].activity.is_none());

    state.observe_activity(other, 100, 0, 0).unwrap();
    let activity = state.relationships[&3].activity.unwrap();
    assert_eq!((activity.rx_bytes, activity.tx_bytes), (0, 0));
    assert_eq!(activity.last_active_at, 100);

    state.observe_activity(other, 200, 0, 0).unwrap();
    assert_eq!(state.relationships[&3].activity.unwrap().last_active_at, 100);

    state.observe_activity(other, 300, 10, 5).unwrap();
    let activity = state.relationships[&3].activity.unwrap();
    assert_eq!((activity.rx_bytes, activity.tx_bytes), (10, 5));
    assert_eq!(activity.last_active_at, 300);

    state.observe_activity(other, 400, 2, 1).unwrap();
    let activity = state.relationships[&3].activity.unwrap();
    assert_eq!((activity.rx_bytes, activity.tx_bytes), (2, 1));
    assert_eq!(activity.last_active_at, 400);

    assert!(state.observe_activity(n(99), 0, 0, 0).is_err());
}

#[test]
fn randomness_failure_never_returns_partial_identity() {
    let bridge = toy();
    assert!(hybrid_keypair(&mut Fail, &bridge).is_err());
    assert!(signing_keypair(&mut Fail, &bridge).is_err());
    assert!(random::<56, Fail>(&mut Fail).is_err());
    assert!(Identity::generate(Binary([1; 32]), n(1), &mut Fail, &bridge).is_err());
    assert!(ManagementLink::generate(&mut Fail).is_err());
}

#[test]
fn signing_private_keys_have_a_cleared_high_bit() {
    let mut rng = Counter(0);
    for _ in 0..8 {
        let (public, private) = signing_keypair(&mut rng, &toy()).unwrap();
        assert!(private.0[0] <= 1);
        assert_eq!(public, sign_public_of(&private.0));
    }
}

#[test]
fn derivation_follows_the_labels_and_transcript_salt() {
    let bridge = toy();
    let kem = Secret::from_bytes([1u8; 32]);
    let dh = Secret::from_bytes([2u8; 56]);
    let operator = Secret::from_bytes([3u8; 32]);
    let candidate = innernet_rp::crypto::derive(&kem, &dh, &operator, b"transcript", &bridge).unwrap();
    let ikm: Vec<u8> = [vec![1u8; 32], vec![2u8; 56], vec![3u8; 32]].concat();
    let salt = digest(&[b"transcript"]);
    let label = b"innernet pq-psk v1 psk";
    let expected = digest(&[b"hkdf", &ikm, &salt, &[&label[..], &salt[..]].concat()]);
    assert_eq!(candidate.psk.0, expected);
    let label = b"innernet pq-psk v1 confirm i";
    let expected = digest(&[b"hkdf", &ikm, &salt, &[&label[..], &salt[..]].concat()]);
    assert_eq!(candidate.initiator_confirmation.0, expected);
    // Every input changes the keys.
    let other = innernet_rp::crypto::derive(&kem, &dh, &Secret::from_bytes([4u8; 32]), b"transcript", &bridge).unwrap();
    assert_ne!(other.psk.0, candidate.psk.0);
    let other = innernet_rp::crypto::derive(&kem, &dh, &operator, b"transcript!", &bridge).unwrap();
    assert_ne!(other.psk.0, candidate.psk.0);
}

#[test]
fn state_model_requires_commit_and_responder_first() {
    let mut state = Decision::default();
    assert!(state.advance(Kind::Installed, false).is_err());
    assert!(state.advance(Kind::Commit, true).is_err());
    assert!(state.advance(Kind::Ready, true).is_err());
    state.advance(Kind::Ready, false).unwrap();
    state.advance(Kind::Commit, true).unwrap();
    state.expire();
    assert_eq!(state.phase, Phase::Committed);
    assert!(state.advance(Kind::Abort, true).is_err());
    assert!(state.advance(Kind::Installed, true).is_err());
    assert!(state.advance(Kind::Confirmed, false).is_err());
    state.advance(Kind::Installed, false).unwrap();
    state.advance(Kind::Installed, true).unwrap();
    state.advance(Kind::Confirmed, true).unwrap();
    state.advance(Kind::Confirmed, false).unwrap();
    assert_eq!(state.phase, Phase::Complete);
}

#[test]
fn expiry_wins_before_commit_and_not_after() {
    for phase in [Phase::Proposed, Phase::Ready] {
        let mut state = Decision { phase, ..Default::default() };
        state.expire();
        assert_eq!(state.phase, Phase::Aborted);
        assert!(state.advance(Kind::Commit, true).is_err());
    }
}

#[test]
fn terminal_decisions_refuse_every_message() {
    for phase in [Phase::Complete, Phase::Aborted] {
        for kind in [Kind::Propose, Kind::Ready, Kind::Commit, Kind::Installed, Kind::Confirmed, Kind::Abort] {
            for initiator in [true, false] {
                let mut state = Decision { phase, installed: [true, true], confirmed: [true, true] };
                assert_eq!(state.advance(kind, initiator), Err(Error::Conflict));
                assert_eq!(state.phase, phase);
            }
        }
    }
}

/// Folds one signed message into the server's record of the exchange, as
/// the mailbox does.
fn apply(
    existing: Option<Exchange>,
    action: &Action,
    sender: &EndpointState,
    other: u64,
) -> Option<Exchange> {
    let message = match action {
        Action::Send(message) => **message,
        _ => return existing,
    };
    let mut exchange = existing.unwrap_or_else(|| {
        let transcript = sender.relationships[&other].pending.as_ref().unwrap().transcript;
        Exchange {
            network_id: transcript.network_id,
            initiator_id: transcript.initiator_id,
            responder_id: transcript.responder_id,
            initiator_bundle_id: transcript.initiator.bundle_id,
            responder_bundle_id: transcript.responder.bundle_id,
            sequence: transcript.sequence,
            exchange_id: transcript.exchange_id,
            transcript_hash: Binary(digest(&[&transcript.encode()])),
            decision: Decision::default(),
            created_at: 0,
            prepare_expires_at: 600,
            transcript: Some(transcript),
            messages: vec![],
            receipts: vec![],
            termination: None,
        }
    });
    let sender_is_initiator = message.sender_id == exchange.initiator_id;
    let kind = message.validate_shape().unwrap();
    if kind != Kind::Propose {
        exchange.decision.advance(kind, sender_is_initiator).unwrap();
    }
    exchange.messages.push(message);
    Some(exchange)
}

fn peer(id: u64, rng: &mut Counter) -> (EndpointState, Bundle) {
    let identity = Identity::generate(Binary([id as u8; 32]), n(1), rng, &toy()).unwrap();
    let bundle = identity.bundle;
    let state = EndpointState {
        network_id: Binary([9; 16]),
        peer_id: n(id),
        server_id: n(1),
        server_public_key: Binary([1; 32]),
        policy: Policy::Strict,
        registration: Registration {
            expected_revision: None,
            pq_version: 1,
            lifecycle: Lifecycle::Enabled,
            bundle,
            emergency: false,
        },
        identity,
        enrollment: Enrollment::Advertised,
        management: ManagementLink::generate(rng).unwrap(),
        relationships: BTreeMap::new(),
    };
    (state, bundle)
}

struct Peers<'a> {
    a: &'a mut EndpointState,
    b: &'a mut EndpointState,
    installer_a: &'a mut FakeInstaller,
    installer_b: &'a mut FakeInstaller,
}

fn converge(peers: Peers, start: u64, interval: u64, rng: &mut Counter, bridge: &ToyBridge) -> u64 {
    let Peers { a, b, installer_a, installer_b } = peers;
    let a_id = a.peer_id;
    let b_id = b.peer_id;
    let mut exchange: Option<Exchange> = None;
    let (mut a_done, mut b_done) = (false, false);
    for now in start..start + 40 {
        if !a_done {
            let action = a
                .reconcile(b_id, exchange.as_ref(), now, interval, installer_a, rng, bridge)
                .unwrap();
            if action == Action::Complete {
                a_done = true;
            }
            exchange = apply(exchange, &action, a, b_id.get());
        }
        if !b_done {
            let action = b
                .reconcile(a_id, exchange.as_ref(), now, interval, installer_b, rng, bridge)
                .unwrap();
            if action == Action::Complete {
                b_done = true;
            }
            exchange = apply(exchange, &action, b, a_id.get());
        }
        if a_done && b_done {
            return now;
        }
    }
    panic!("exchange did not converge within the bounded iteration count");
}

fn two_peers(rng: &mut Counter, bridge: &ToyBridge) -> (EndpointState, EndpointState) {
    let (mut a, bundle_a) = peer(2, rng);
    let (mut b, bundle_b) = peer(3, rng);
    a.observe_remote(n(3), &bundle_b, Lifecycle::Enabled, bridge).unwrap();
    b.observe_remote(n(2), &bundle_a, Lifecycle::Enabled, bridge).unwrap();
    (a, b)
}

#[test]
fn independent_processes_converge_on_one_candidate_through_the_full_phase_sequence() {
    let mut rng = Counter(0);
    let bridge = toy();
    let (mut a, mut b) = two_peers(&mut rng, &bridge);
    let mut installer_a = FakeInstaller::default();
    let mut installer_b = FakeInstaller::default();
    let completed_at = converge(
        Peers { a: &mut a, b: &mut b, installer_a: &mut installer_a, installer_b: &mut installer_b },
        0,
        300,
        &mut rng,
        &bridge,
    );

    let psk_a = a.relationships[&3].confirmed.unwrap().psk.0 .0;
    let psk_b = b.relationships[&2].confirmed.unwrap().psk.0 .0;
    assert_eq!(psk_a, psk_b);
    assert_eq!(installer_a.installed_psks.len(), 1);
    assert_eq!(installer_b.installed_psks.len(), 1);
    assert!(a.relationships[&3].pending.is_none());
    assert!(b.relationships[&2].pending.is_none());
    assert_eq!(a.relationships[&3].status, Status::Confirmed);

    let second_completed_at = converge(
        Peers { a: &mut a, b: &mut b, installer_a: &mut installer_a, installer_b: &mut installer_b },
        completed_at + 300,
        300,
        &mut rng,
        &bridge,
    );
    assert!(second_completed_at > completed_at);
    let psk_a_2 = a.relationships[&3].confirmed.unwrap().psk.0 .0;
    assert_ne!(psk_a, psk_a_2);
    assert_eq!(installer_a.installed_psks.len(), 1);
    assert!(a.relationships[&3].sequence > n(1));
}

#[test]
fn rotation_does_not_start_before_the_interval_elapses() {
    let mut rng = Counter(0);
    let bridge = toy();
    let (mut a, mut b) = two_peers(&mut rng, &bridge);
    let mut installer_a = FakeInstaller::default();
    let mut installer_b = FakeInstaller::default();
    let completed_at = converge(
        Peers { a: &mut a, b: &mut b, installer_a: &mut installer_a, installer_b: &mut installer_b },
        0,
        300,
        &mut rng,
        &bridge,
    );
    let b_id = n(3);
    let action = a.reconcile(b_id, None, completed_at, 300, &mut installer_a, &mut rng, &bridge).unwrap();
    assert_eq!(action, Action::Idle);
    let action = a
        .reconcile(b_id, None, completed_at + 299, 300, &mut installer_a, &mut rng, &bridge)
        .unwrap();
    assert_eq!(action, Action::Idle);
    let action = a
        .reconcile(b_id, None, completed_at + 300, 300, &mut installer_a, &mut rng, &bridge)
        .unwrap();
    assert!(matches!(action, Action::Send(_)));
}

#[test]
fn replaying_the_same_snapshot_is_a_safe_no_op() {
    let mut rng = Counter(0);
    let bridge = toy();
    let (mut a, mut b) = two_peers(&mut rng, &bridge);
    let mut installer_a = FakeInstaller::default();
    let mut installer_b = FakeInstaller::default();

    let propose = a.reconcile(n(3), None, 0, 300, &mut installer_a, &mut rng, &bridge).unwrap();
    let exchange = apply(None, &propose, &a, 3);
    let ready = b
        .reconcile(n(2), exchange.as_ref(), 0, 300, &mut installer_b, &mut rng, &bridge)
        .unwrap();
    let exchange = apply(exchange, &ready, &b, 2);

    let first = a
        .reconcile(n(3), exchange.as_ref(), 0, 300, &mut installer_a, &mut rng, &bridge)
        .unwrap();
    let second = a
        .reconcile(n(3), exchange.as_ref(), 0, 300, &mut installer_a, &mut rng, &bridge)
        .unwrap();
    assert_eq!(first, second);
    assert!(matches!(first, Action::Send(_)));
    assert_eq!(a.relationships[&3].pending.as_ref().unwrap().decision.phase, Phase::Committed);
}

#[test]
fn prepare_ttl_expiry_before_commitment_is_adopted_as_abort() {
    let mut rng = Counter(0);
    let bridge = toy();
    let (mut a, _) = peer(2, &mut rng);
    let (_, bundle_b) = peer(3, &mut rng);
    a.observe_remote(n(3), &bundle_b, Lifecycle::Enabled, &bridge).unwrap();
    let mut installer_a = FakeInstaller::default();

    let propose = a.reconcile(n(3), None, 0, 300, &mut installer_a, &mut rng, &bridge).unwrap();
    let mut exchange = apply(None, &propose, &a, 3).unwrap();
    exchange.decision.expire();
    assert_eq!(exchange.decision.phase, Phase::Aborted);

    let action = a
        .reconcile(n(3), Some(&exchange), 700, 300, &mut installer_a, &mut rng, &bridge)
        .unwrap();
    assert_eq!(action, Action::Idle);
    assert!(a.relationships[&3].pending.is_none());
}

#[test]
fn reconcile_refuses_self_server_and_unknown_peers() {
    let mut rng = Counter(0);
    let bridge = toy();
    let (mut a, _) = two_peers(&mut rng, &bridge);
    let mut installer = FakeInstaller::new();
    for other in [n(2), n(1), n(4)] {
        assert_eq!(
            a.reconcile(other, None, 0, 300, &mut installer, &mut rng, &bridge),
            Err(Error::Invalid)
        );
    }
}

#[test]
fn the_higher_identifier_waits_for_the_lower_to_propose() {
    let mut rng = Counter(0);
    let bridge = toy();
    let (_, mut b) = two_peers(&mut rng, &bridge);
    let mut installer = FakeInstaller::new();
    let action = b.reconcile(n(2), None, 0, 300, &mut installer, &mut rng, &bridge).unwrap();
    assert_eq!(action, Action::Idle);
    assert!(b.relationships[&2].pending.is_none());
}

#[test]
fn transcripts_and_messages_authenticate_only_their_own_bytes() {
    let mut rng = Counter(0);
    let bridge = toy();
    let (mut a, _) = two_peers(&mut rng, &bridge);
    let mut installer = FakeInstaller::new();
    let propose = a.reconcile(n(3), None, 0, 300, &mut installer, &mut rng, &bridge).unwrap();
    let message = match propose {
        Action::Send(m) => *m,
        other => panic!("expected a proposal, got {other:?}"),
    };
    let transcript = a.relationships[&3].pending.as_ref().unwrap().transcript;
    transcript.validate(&bridge).unwrap();
    assert_eq!(message.validate_shape(), Ok(Kind::Propose));
    assert_eq!(message.transcript_hash.0, digest(&[&transcript.encode()]));
    assert!(message.authenticate(&transcript, &bridge).is_ok());
    let mut tampered = message;
    tampered.sequence = n(9);
    assert!(tampered.authenticate(&transcript, &bridge).is_err());
    let mut tampered = message;
    tampered.signature.0[0] ^= 1;
    assert!(tampered.authenticate(&transcript, &bridge).is_err());
    assert_eq!(transcript.encode().len() > 2 * 1747, true);
    assert_eq!(transcript.ephemeral_key(), {
        let mut key = [0u8; 56];
        key.copy_from_slice(&transcript.ciphertext.0[1568..]);
        key
    });
}

#[test]
fn candidate_secrets_round_trip_the_candidate() {
    let bridge = toy();
    let candidate = innernet_rp::crypto::derive(
        &Secret::from_bytes([5; 32]),
        &Secret::from_bytes([6; 56]),
        &Secret::from_bytes([0; 32]),
        b"t",
        &bridge,
    )
    .unwrap();
    let stored = CandidateSecrets::from(candidate);
    let back = stored.candidate();
    assert_eq!(back.psk.0, candidate.psk.0);
    assert_eq!(back.initiator_confirmation.0, candidate.initiator_confirmation.0);
    assert_eq!(back.responder_confirmation.0, candidate.responder_confirmation.0);
}

use innernet_rp::api::MessageDigest;
use innernet_rp::mailbox::{
    active_bundle, budget, check_bundles, check_submission, continue_exchange, find_record,
    open_exchange, pair_decision, registration_check, registration_commit, registration_given,
    server_claim,
    sweep_record, terminate_record, Continued, MailboxError, RegistrationStep, RegistrationWrite,
};
use innernet_rp::paging::{decode_cursor, encode_cursor};
use innernet_rp::admission::Limits;
use innernet_rp::protocol::Message;

/// The server side of the exchange mailbox, applying the mailbox rules to
/// a list of records for one network.
struct Mailbox {
    network_id: Binary<16>,
    records: Vec<Exchange>,
}

impl Mailbox {
    fn submit(
        &mut self,
        message: &Message,
        sender: i64,
        other: i64,
        bundles: (&Bundle, &Bundle),
        now: u64,
        bridge: &ToyBridge,
    ) -> Result<(), MailboxError> {
        let kind = check_submission(message, sender, other)?;
        let (first, second) = bundles;
        check_bundles(message, &self.network_id, first, second)?;
        // Every byte of the message stands in for its JSON encoding.
        let mut encoded = message.signed_bytes();
        encoded.extend_from_slice(&message.signature.0);
        if let Some(c) = &message.ciphertext {
            encoded.extend_from_slice(&c.0);
        }
        let digest = MessageDigest::of(message, &encoded, bridge).map_err(MailboxError::Protocol)?;
        let sender_is_initiator = sender < other;
        match find_record(&self.records, &first.bundle_id, &second.bundle_id) {
            Some(i) => {
                let step = continue_exchange(
                    &mut self.records[i],
                    message,
                    kind,
                    digest,
                    sender_is_initiator,
                    bridge,
                )?;
                if step == Continued::Later {
                    let earlier = vec![self.records[i].clone()];
                    let opened = open_exchange(
                        &earlier, kind, Ok(()), self.network_id, message, first, second, digest,
                        now, bridge,
                    )?;
                    self.records[i] = opened;
                }
                Ok(())
            }
            None => {
                let opened = open_exchange(
                    &self.records, kind, Ok(()), self.network_id, message, first, second, digest,
                    now, bridge,
                )?;
                self.records.push(opened);
                Ok(())
            }
        }
    }

    fn record(&self) -> Option<&Exchange> {
        self.records.first()
    }
}

fn converge_through_mailbox(
    a: &mut EndpointState,
    b: &mut EndpointState,
    mailbox: &mut Mailbox,
    installers: (&mut FakeInstaller, &mut FakeInstaller),
    start: u64,
    rng: &mut Counter,
    bridge: &ToyBridge,
) -> u64 {
    let (installer_a, installer_b) = installers;
    let a_id = a.peer_id;
    let b_id = b.peer_id;
    let bundles = (a.identity.bundle, b.identity.bundle);
    let (mut a_done, mut b_done) = (false, false);
    for now in start..start + 40 {
        if !a_done {
            let remote = mailbox.record().cloned();
            let action = a.reconcile(b_id, remote.as_ref(), now, 300, installer_a, rng, bridge).unwrap();
            match &action {
                Action::Send(m) => mailbox
                    .submit(m, a_id.get() as i64, b_id.get() as i64, (&bundles.0, &bundles.1), now, bridge)
                    .unwrap(),
                Action::Complete => a_done = true,
                Action::Idle => {}
            }
        }
        if !b_done {
            let remote = mailbox.record().cloned();
            let action = b.reconcile(a_id, remote.as_ref(), now, 300, installer_b, rng, bridge).unwrap();
            match &action {
                Action::Send(m) => mailbox
                    .submit(m, b_id.get() as i64, a_id.get() as i64, (&bundles.0, &bundles.1), now, bridge)
                    .unwrap(),
                Action::Complete => b_done = true,
                Action::Idle => {}
            }
        }
        if a_done && b_done {
            return now;
        }
    }
    panic!("exchange did not converge through the mailbox");
}

#[test]
fn independent_processes_converge_through_the_mailbox_rules() {
    let mut rng = Counter(0);
    let bridge = toy();
    let (mut a, mut b) = two_peers(&mut rng, &bridge);
    let mut mailbox = Mailbox { network_id: Binary([9; 16]), records: vec![] };
    let mut installer_a = FakeInstaller::new();
    let mut installer_b = FakeInstaller::new();
    let done = converge_through_mailbox(
        &mut a, &mut b, &mut mailbox, (&mut installer_a, &mut installer_b), 0, &mut rng, &bridge,
    );
    let record = mailbox.record().unwrap();
    assert_eq!(record.decision.phase, Phase::Complete);
    // A terminal record keeps only its receipts.
    assert!(record.transcript.is_none());
    assert!(record.messages.is_empty());
    assert_eq!(record.receipts.len(), 7);
    let psk_a = a.relationships[&3].confirmed.unwrap().psk.0 .0;
    let psk_b = b.relationships[&2].confirmed.unwrap().psk.0 .0;
    assert_eq!(psk_a, psk_b);

    // The next rotation opens a fresh record for the same bundle pair.
    converge_through_mailbox(
        &mut a, &mut b, &mut mailbox, (&mut installer_a, &mut installer_b), done + 300, &mut rng,
        &bridge,
    );
    assert_eq!(mailbox.records.len(), 1);
    assert_eq!(mailbox.record().unwrap().sequence, n(2));
    assert_ne!(a.relationships[&3].confirmed.unwrap().psk.0 .0, psk_a);
}

#[test]
fn the_mailbox_refuses_replays_foreign_senders_and_stale_sequences() {
    let mut rng = Counter(0);
    let bridge = toy();
    let (mut a, b) = two_peers(&mut rng, &bridge);
    let mut mailbox = Mailbox { network_id: Binary([9; 16]), records: vec![] };
    let mut installer = FakeInstaller::new();
    let bundles = (a.identity.bundle, b.identity.bundle);
    let propose = match a.reconcile(n(3), None, 0, 300, &mut installer, &mut rng, &bridge).unwrap() {
        Action::Send(m) => *m,
        other => panic!("expected a proposal, got {other:?}"),
    };
    // Only the sender itself may submit its message.
    assert_eq!(
        check_submission(&propose, 3, 2),
        Err(MailboxError::Unauthorized)
    );
    // The bundles must be the pair's current ones.
    assert_eq!(
        check_bundles(&propose, &Binary([8; 16]), &bundles.0, &bundles.1),
        Err(MailboxError::Conflict)
    );
    mailbox.submit(&propose, 2, 3, (&bundles.0, &bundles.1), 0, &bridge).unwrap();
    let before = mailbox.records.clone();
    // An identical retry changes nothing.
    mailbox.submit(&propose, 2, 3, (&bundles.0, &bundles.1), 1, &bridge).unwrap();
    assert_eq!(mailbox.records, before);
    // A tampered copy of the same type from the same sender conflicts.
    let mut tampered = propose;
    tampered.tag.0[0] ^= 1;
    assert_eq!(
        mailbox.submit(&tampered, 2, 3, (&bundles.0, &bundles.1), 1, &bridge),
        Err(MailboxError::Conflict)
    );
    // A message of an older sequence conflicts.
    let mut record = mailbox.records[0].clone();
    let digest = MessageDigest::of(&propose, b"x", &bridge).unwrap();
    record.sequence = n(5);
    assert_eq!(
        continue_exchange(&mut record, &propose, Kind::Propose, digest, true, &bridge),
        Err(MailboxError::Conflict)
    );
    // A later sequence must open a new exchange, which needs terminal records.
    let mut record = mailbox.records[0].clone();
    let mut later = propose;
    later.sequence = n(2);
    assert_eq!(
        continue_exchange(&mut record, &later, Kind::Propose, digest, true, &bridge),
        Ok(Continued::Later)
    );
    assert_eq!(
        open_exchange(
            &mailbox.records, Kind::Propose, Ok(()), Binary([9; 16]), &later, &bundles.0,
            &bundles.1, digest, 0, &bridge
        ),
        Err(MailboxError::Conflict)
    );
    // A capacity refusal is passed on.
    assert_eq!(
        open_exchange(
            &vec![], Kind::Propose, Err(MailboxError::RateLimited), Binary([9; 16]), &later,
            &bundles.0, &bundles.1, digest, 0, &bridge
        ),
        Err(MailboxError::RateLimited)
    );
    // Only a proposal opens an exchange.
    assert_eq!(
        open_exchange(
            &vec![], Kind::Ready, Ok(()), Binary([9; 16]), &later, &bundles.0, &bundles.1, digest,
            0, &bridge
        ),
        Err(MailboxError::Conflict)
    );
}

#[test]
fn sweeps_expire_uncommitted_records_and_revocation_terminates() {
    let mut rng = Counter(0);
    let bridge = toy();
    let (mut a, b) = two_peers(&mut rng, &bridge);
    let mut mailbox = Mailbox { network_id: Binary([9; 16]), records: vec![] };
    let mut installer = FakeInstaller::new();
    let bundles = (a.identity.bundle, b.identity.bundle);
    if let Action::Send(m) = a.reconcile(n(3), None, 100, 300, &mut installer, &mut rng, &bridge).unwrap() {
        mailbox.submit(&m, 2, 3, (&bundles.0, &bundles.1), 100, &bridge).unwrap();
    }
    let mut record = mailbox.records[0].clone();
    assert_eq!(record.prepare_expires_at, 700);
    assert!(!sweep_record(&mut record, 699, false));
    assert_eq!(record.decision.phase, Phase::Proposed);
    assert!(sweep_record(&mut record, 700, false));
    assert_eq!(record.decision.phase, Phase::Aborted);
    assert!(record.transcript.is_none());
    assert_eq!(record.receipts.len(), 1);

    let mut record = mailbox.records[0].clone();
    assert!(sweep_record(&mut record, 0, true));
    assert_eq!(record.termination.as_deref(), Some("revoked"));

    let mut record = mailbox.records[0].clone();
    terminate_record(&mut record, "retired");
    assert_eq!(record.decision.phase, Phase::Aborted);
    assert_eq!(record.termination.as_deref(), Some("retired"));
    assert!(record.messages.is_empty());
}

#[test]
fn registrations_advance_one_revision_at_a_time() {
    let mut rng = Counter(0);
    let bridge = toy();
    let first = identity(5, 1, &mut rng).bundle;
    let request = Registration {
        expected_revision: None,
        pq_version: 1,
        lifecycle: Lifecycle::Enabled,
        bundle: first,
        emergency: false,
    };
    let key = Some([5u8; 32]);
    assert_eq!(
        registration_check(&None, &request, key, &bridge),
        Ok(RegistrationStep::Proceed(n(1)))
    );
    // The caller's own key must be the bundle's.
    assert_eq!(
        registration_check(&None, &request, Some([6u8; 32]), &bridge),
        Err(MailboxError::InvalidQuery)
    );
    assert_eq!(
        registration_check(&None, &request, None, &bridge),
        Err(MailboxError::InvalidQuery)
    );
    let current = Some(AdvertisedBundle { pq_version: 1, lifecycle: Lifecycle::Enabled, bundle: first });
    // An identical retry is accepted without a write.
    assert_eq!(
        registration_check(&current, &request, key, &bridge),
        Ok(RegistrationStep::Unchanged)
    );
    // A first registration over an existing one conflicts.
    let mut other = request;
    other.bundle = identity(5, 1, &mut rng).bundle;
    assert_eq!(
        registration_check(&current, &other, key, &bridge),
        Err(MailboxError::Conflict)
    );
    // A replacement names the revision it replaces.
    let second = identity(5, 2, &mut rng).bundle;
    let replace = Registration { expected_revision: Some(n(1)), bundle: second, ..request };
    assert_eq!(
        registration_check(&current, &replace, key, &bridge),
        Ok(RegistrationStep::Proceed(n(2)))
    );
    assert_eq!(
        registration_commit(&current, &replace, n(2), false, Ok(()), false),
        Ok(RegistrationWrite::Enable)
    );
    // A bundle ID used before is never accepted again.
    assert_eq!(
        registration_commit(&current, &replace, n(2), false, Ok(()), true),
        Err(MailboxError::Conflict)
    );
    // Active exchanges block it; so does a full budget.
    assert_eq!(
        registration_commit(&current, &replace, n(2), true, Ok(()), false),
        Err(MailboxError::Conflict)
    );
    assert_eq!(
        registration_commit(&current, &replace, n(2), false, Err(MailboxError::RateLimited), false),
        Err(MailboxError::RateLimited)
    );
    // An emergency enable is malformed.
    let emergency_enable = Registration { emergency: true, ..replace };
    assert_eq!(
        registration_check(&current, &emergency_enable, key, &bridge),
        Err(MailboxError::InvalidQuery)
    );
    // Retiring restates the current bundle at the next revision, and an
    // emergency retirement goes ahead over active exchanges.
    let mut retired_bundle = first;
    retired_bundle.bundle_revision = n(2);
    let retire = Registration {
        expected_revision: Some(n(1)),
        pq_version: 1,
        lifecycle: Lifecycle::Retired,
        bundle: retired_bundle,
        emergency: true,
    };
    assert_eq!(
        registration_check(&current, &retire, key, &bridge),
        Ok(RegistrationStep::Proceed(n(2)))
    );
    assert_eq!(
        registration_commit(&current, &retire, n(2), true, Ok(()), false),
        Ok(RegistrationWrite::Retire)
    );
    assert_eq!(
        registration_commit(&None, &retire, n(2), false, Ok(()), false),
        Err(MailboxError::Conflict)
    );
    assert_eq!(
        registration_commit(&current, &Registration { bundle: second, ..retire }, n(2), false, Ok(()), false),
        Err(MailboxError::Conflict)
    );
}

#[test]
fn registration_bodies_are_checked_before_anything_else() {
    let mut rng = Counter(0);
    let bridge = toy();
    let bundle = identity(5, 1, &mut rng).bundle;
    let request = Registration {
        expected_revision: None,
        pq_version: 1,
        lifecycle: Lifecycle::Enabled,
        bundle,
        emergency: false,
    };
    assert_eq!(Registration::parse(100, Some(request), &bridge), Ok(request));
    assert_eq!(Registration::parse(8193, Some(request), &bridge), Err(Error::Invalid));
    assert_eq!(Registration::parse(100, None, &bridge), Err(Error::Invalid));
    assert_eq!(
        Registration::parse(100, Some(Registration { pq_version: 2, ..request }), &bridge),
        Err(Error::Invalid)
    );
    let mut broken = request;
    broken.bundle.pq_kem_public_key.0[1] = 0xff;
    broken.bundle.pq_kem_public_key.0[0] = 0xff;
    assert_eq!(Registration::parse(100, Some(broken), &bridge), Err(Error::Invalid));
}

#[test]
fn exchange_parties_are_active_and_keyed() {
    let mut rng = Counter(0);
    let bundle = identity(5, 1, &mut rng).bundle;
    let advertised = AdvertisedBundle { pq_version: 1, lifecycle: Lifecycle::Enabled, bundle };
    assert_eq!(active_bundle(Some(advertised), Some([5; 32])), Ok(bundle));
    assert_eq!(active_bundle(Some(advertised), Some([6; 32])), Err(MailboxError::Conflict));
    assert_eq!(active_bundle(None, Some([5; 32])), Err(MailboxError::Conflict));
    let retired = AdvertisedBundle { lifecycle: Lifecycle::Retired, ..advertised };
    assert_eq!(active_bundle(Some(retired), Some([5; 32])), Err(MailboxError::Conflict));
    assert_eq!(pair_decision(2, 3, false, false, true, true), Ok(()));
    assert_eq!(pair_decision(2, 2, false, false, true, true), Err(MailboxError::Unauthorized));
    assert_eq!(pair_decision(2, 3, true, false, true, true), Err(MailboxError::Unauthorized));
    assert_eq!(pair_decision(2, 3, false, false, true, false), Err(MailboxError::Unauthorized));
    assert_eq!(server_claim(None, 4), Ok(()));
    assert_eq!(server_claim(Some(4), 4), Ok(()));
    assert_eq!(server_claim(Some(5), 4), Err(MailboxError::Conflict));
}

#[test]
fn the_database_budget_keeps_the_recovery_reserve() {
    let limits = Limits::default();
    assert_eq!(budget(1, 4096, 10, 10, &limits, true), Ok(()));
    // 224 MiB is available; the headroom counts against it.
    let available = limits.database_bytes - limits.recovery_reserve_bytes;
    assert_eq!(budget(available / 4096, 4096, 10, 10, &limits, false), Err(MailboxError::RateLimited));
    assert_eq!(budget((available - 32768) / 4096, 4096, 10, 10, &limits, false), Ok(()));
    assert_eq!(budget(u64::MAX, u64::MAX, 1, 1, &limits, false), Err(MailboxError::RateLimited));
    assert_eq!(budget(1, 1, 10001, 1, &limits, false), Err(MailboxError::RateLimited));
    assert_eq!(budget(1, 1, 1, 100000, &limits, true), Err(MailboxError::RateLimited));
    assert_eq!(budget(1, 1, 1, 100000, &limits, false), Ok(()));
}

#[test]
fn cursors_round_trip_and_refuse_tampering() {
    let bridge = toy();
    let key = Secret::from_bytes([4; 32]);
    let text = encode_cursor(&key, [7, 11, 1, 42], &bridge).unwrap();
    assert_eq!(text.len(), 88);
    assert_eq!(decode_cursor(&key, &text, 7, 11, &bridge), Ok((1, 42)));
    // Another requester or revision restarts the walk.
    assert_eq!(decode_cursor(&key, &text, 8, 11, &bridge), Err(MailboxError::Conflict));
    assert_eq!(decode_cursor(&key, &text, 7, 12, &bridge), Err(MailboxError::Conflict));
    // Another key, or a changed byte, does not verify.
    let other_key = Secret::from_bytes([5; 32]);
    assert_eq!(decode_cursor(&other_key, &text, 7, 11, &bridge), Err(MailboxError::InvalidQuery));
    let mut tampered = text.clone();
    tampered[0] = if tampered[0] == b'A' { b'B' } else { b'A' };
    assert_eq!(decode_cursor(&key, &tampered, 7, 11, &bridge), Err(MailboxError::InvalidQuery));
    assert_eq!(decode_cursor(&key, b"bad", 7, 11, &bridge), Err(MailboxError::InvalidQuery));
    // An unknown stage is refused even when authentic.
    let text = encode_cursor(&key, [7, 11, 3, 42], &bridge).unwrap();
    assert_eq!(decode_cursor(&key, &text, 7, 11, &bridge), Err(MailboxError::InvalidQuery));
}

use innernet_rp::client::{
    data_peer, exchange_for, gate_rechecks, legacy_eligible, management_path, proactive_gate,
    register_state, registration_route, state_path, GateChoice, ManagementState, RegisterError,
};
use innernet_rp::enrollment::{Enrollment as LinkEnrollment, SecretKey};

fn endpoint_state(policy: Policy, rng: &mut Counter) -> EndpointState {
    let mut state = base_state(2, 1, rng);
    state.policy = policy;
    state
}

fn with_relationship(mut state: EndpointState, other: u64, prior_pq: bool, rng: &mut Counter) -> EndpointState {
    let remote = identity(8, 5, rng).bundle;
    let mut r = relationship(remote, 1, Status::Advertised, None);
    r.prior_pq = prior_pq;
    state.relationships.insert(other, r);
    state
}

#[test]
fn legacy_eligible_only_for_permissive_bundle_less_never_confirmed_peers() {
    let mut rng = Counter(0);
    let other = n(3);
    assert!(!legacy_eligible(&endpoint_state(Policy::Strict, &mut rng), other, false));
    assert!(!legacy_eligible(&endpoint_state(Policy::Strict, &mut rng), other, true));
    assert!(legacy_eligible(&endpoint_state(Policy::Permissive, &mut rng), other, false));
    assert!(!legacy_eligible(&endpoint_state(Policy::Permissive, &mut rng), other, true));
    let state = endpoint_state(Policy::Permissive, &mut rng);
    let state = with_relationship(state, 3, true, &mut rng);
    assert!(!legacy_eligible(&state, other, false));
    let state = endpoint_state(Policy::Permissive, &mut rng);
    let state = with_relationship(state, 3, false, &mut rng);
    assert!(legacy_eligible(&state, other, false));
}

#[test]
fn proactive_gating_skips_confirmed_and_infrastructure_peers() {
    let mut rng = Counter(0);
    let state = endpoint_state(Policy::Permissive, &mut rng);
    // The server, ourselves and invalid identifiers are never gated.
    assert_eq!(proactive_gate(&state, true, 5, false), GateChoice::Skip);
    assert_eq!(proactive_gate(&state, false, 1, false), GateChoice::Skip);
    assert_eq!(proactive_gate(&state, false, 2, false), GateChoice::Skip);
    assert_eq!(proactive_gate(&state, false, 0, false), GateChoice::Skip);
    assert_eq!(proactive_gate(&state, false, -4, false), GateChoice::Skip);
    // A permissive bundle-less peer is released; one with a bundle is gated.
    assert_eq!(proactive_gate(&state, false, 5, false), GateChoice::Release);
    assert_eq!(proactive_gate(&state, false, 5, true), GateChoice::Gate);
    let strict = endpoint_state(Policy::Strict, &mut rng);
    assert_eq!(proactive_gate(&strict, false, 5, false), GateChoice::Gate);
    // A confirmed relationship is already open.
    let mut confirmed = with_relationship(strict, 5, true, &mut rng);
    confirmed.relationships.get_mut(&5).unwrap().confirmed = Some(Confirmed {
        local_bundle_id: Binary([0; 16]),
        remote_bundle_id: Binary([0; 16]),
        sequence: n(1),
        exchange_id: Binary([0; 16]),
        transcript_hash: Binary([0; 32]),
        psk: StoredSecret(Secret::from_bytes([9; 32])),
        completed_at: 1,
    });
    assert_eq!(proactive_gate(&confirmed, false, 5, true), GateChoice::Skip);
    let rechecks = gate_rechecks(&confirmed);
    assert_eq!(rechecks, vec![confirmed.relationships[&5].remote]);
    confirmed.registration.lifecycle = Lifecycle::Retired;
    assert!(gate_rechecks(&confirmed).is_empty());
}

#[test]
fn data_peers_are_bundled_clients_other_than_ourselves() {
    assert_eq!(data_peer(false, 5, true, n(2), n(1)), Some(n(5)));
    assert_eq!(data_peer(false, 5, false, n(2), n(1)), None);
    assert_eq!(data_peer(true, 5, true, n(2), n(1)), None);
    assert_eq!(data_peer(false, 2, true, n(2), n(1)), None);
    assert_eq!(data_peer(false, 1, true, n(2), n(1)), None);
    assert_eq!(data_peer(false, 0, true, n(2), n(1)), None);
}

#[test]
fn client_state_lives_beside_the_interface() {
    assert_eq!(state_path("/var/lib/innernet", "wg0"), "/var/lib/innernet/wg0.pq");
    assert_eq!(management_path("/var/lib/innernet/", "wg0"), "/var/lib/innernet/wg0.client-pq");
}

#[test]
fn registration_routes_follow_the_enrollment() {
    let mut rng = Counter(0);
    let mut state = base_state(2, 1, &mut rng);
    assert_eq!(registration_route(&state), Some(false));
    state.enrollment = Enrollment::Advertised;
    assert_eq!(registration_route(&state), None);
    state.emergency_retire().unwrap();
    assert_eq!(registration_route(&state), Some(true));
}

#[test]
fn a_fresh_client_state_registers_from_the_directory() {
    let mut rng = Counter(0);
    let id = identity(4, 1, &mut rng);
    let management = ManagementLink::generate(&mut rng).unwrap();
    let own = Binary([4u8; 32]);
    let own_text = own.encode_text();
    let entries = vec![
        (1i64, b"server-key".to_vec(), true),
        (6i64, own_text.clone(), false),
    ];
    let state = register_state(Binary([1; 16]), &entries, own, id, management).unwrap();
    assert_eq!(state.peer_id, n(6));
    assert_eq!(state.server_id, n(1));
    assert_eq!(state.enrollment, Enrollment::Advertised);
    assert_eq!(state.registration.bundle, id.bundle);
    assert!(state.relationships.is_empty());
    let missing = vec![(1i64, b"server-key".to_vec(), true)];
    assert_eq!(
        register_state(Binary([1; 16]), &missing, own, id, management).err(),
        Some(RegisterError::SelfNotFound)
    );
    let serverless = vec![(6i64, own_text.clone(), false)];
    assert_eq!(
        register_state(Binary([1; 16]), &serverless, own, id, management).err(),
        Some(RegisterError::ServerNotFound)
    );
    let negative = vec![(1i64, b"s".to_vec(), true), (-6i64, own_text, false)];
    assert_eq!(
        register_state(Binary([1; 16]), &negative, own, id, management).err(),
        Some(RegisterError::InvalidSelf)
    );
}

#[test]
fn exchanges_are_found_for_either_order_of_the_pair() {
    let record = |i: u64, r: u64| Exchange {
        network_id: Binary([0; 16]),
        initiator_id: n(i),
        responder_id: n(r),
        initiator_bundle_id: Binary([0; 16]),
        responder_bundle_id: Binary([0; 16]),
        sequence: n(1),
        exchange_id: Binary([i as u8; 16]),
        transcript_hash: Binary([0; 32]),
        decision: Decision::default(),
        created_at: 0,
        prepare_expires_at: 600,
        transcript: None,
        messages: vec![],
        receipts: vec![],
        termination: None,
    };
    let records = vec![record(2, 4), record(2, 3)];
    assert_eq!(exchange_for(&records, n(3), n(2)), Some(&records[1]));
    assert_eq!(exchange_for(&records, n(2), n(4)), Some(&records[0]));
    assert_eq!(exchange_for(&records, n(3), n(4)), None);
}

fn link(psk: u8) -> LinkEnrollment {
    LinkEnrollment {
        network_id: [1; 16],
        provision_id: [2; 16],
        peer_id: 3,
        server_id: 1,
        psk: SecretKey::from_bytes([psk; 32]).unwrap(),
    }
}

#[test]
fn adopt_rejects_an_invalid_enrollment_before_persisting_anything() {
    let mut invalid = link(7);
    invalid.server_id = invalid.peer_id;
    assert!(ManagementState::adopt(invalid).is_err());
    let state = ManagementState::adopt(link(7)).unwrap();
    assert_eq!(state.active.psk.bytes(), &[7; 32]);
    assert!(state.staged.is_none() && state.previous.is_none());
    assert!(state.validate().is_ok());
}

#[test]
fn stage_requires_an_existing_active_enrollment_and_never_touches_it() {
    let mut state = ManagementState::adopt(link(7)).unwrap();
    state.stage(link(9)).unwrap();
    assert_eq!(state.active.psk.bytes(), link(7).psk.bytes());
    assert_eq!(state.staged.as_ref().unwrap().psk.bytes(), link(9).psk.bytes());
    assert!(state.previous.is_none());
    let mut invalid = link(9);
    invalid.peer_id = 0;
    assert!(state.stage(invalid).is_err());
    assert_eq!(state.staged.as_ref().unwrap().psk.bytes(), link(9).psk.bytes());
}

#[test]
fn apply_active_requires_a_staged_candidate_and_retains_the_superseded_one() {
    let mut state = ManagementState::adopt(link(7)).unwrap();
    assert!(state.apply().is_err());
    assert!(state.staged.is_none() && state.previous.is_none());
    state.stage(link(9)).unwrap();
    state.apply().unwrap();
    assert_eq!(state.active.psk.bytes(), link(9).psk.bytes());
    assert!(state.staged.is_none());
    assert_eq!(state.previous.as_ref().unwrap().psk.bytes(), link(7).psk.bytes());
}

#[test]
fn confirm_requires_an_applied_rotation_and_then_drops_the_superseded_secret() {
    let mut state = ManagementState::adopt(link(7)).unwrap();
    assert!(state.confirm().is_err());
    state.stage(link(9)).unwrap();
    state.apply().unwrap();
    state.confirm().unwrap();
    assert!(state.previous.is_none());
    assert!(state.confirm().is_err());
}

#[test]
fn rollback_restores_the_prior_active_secret_and_discards_the_staged_one() {
    let mut state = ManagementState::adopt(link(7)).unwrap();
    assert!(state.rollback().is_err());
    state.stage(link(9)).unwrap();
    state.apply().unwrap();
    state.rollback().unwrap();
    assert_eq!(state.active.psk.bytes(), link(7).psk.bytes());
    assert!(state.staged.is_none());
    assert!(state.previous.is_none());
}

#[test]
fn server_links_roll_back_and_force_exactly_as_stated() {
    let mut rng = Counter(0);
    let link = ManagementLink::generate(&mut rng).unwrap();
    assert!(!link.verified && link.staged.is_none() && link.previous.is_none());
    link.validate().unwrap();
    let mut rotated = link;
    rotated.stage_rotation(Some(Secret::from_bytes([3; 32])), &mut rng).unwrap();
    rotated.apply_rotation().unwrap();
    rotated.rollback_rotation().unwrap();
    assert!(rotated.psk.0.same(&link.psk.0));
    assert_eq!(rotated.provision_id, link.provision_id);
    // The restored secret was already in use.
    assert!(rotated.verified);
    // A zero secret is never adopted.
    let mut zero = link;
    assert!(zero.stage_rotation(Some(Secret::from_bytes([0; 32])), &mut rng).is_err());
    assert!(zero.force_active(Secret::from_bytes([0; 32]), &mut rng).is_err());
}

use innernet_rp::api::{PeerState, StatePage};
use innernet_rp::client::{blocked_elements, sync_directory, sync_peer, PeerSkip, StateWalk, TransportError};
use innernet_rp::gate::Element;

#[test]
fn one_sync_cycle_observes_samples_and_advances_each_data_peer() {
    let mut rng = Counter(0);
    let bridge = toy();
    let (mut a, _) = peer(2, &mut rng);
    let (b, bundle_b) = peer(3, &mut rng);
    let mut installer = FakeInstaller::new();
    let advertised = AdvertisedBundle { pq_version: 1, lifecycle: Lifecycle::Enabled, bundle: bundle_b };
    // The server, ourselves and bundle-less peers are skipped untouched.
    for (entry, pq) in [((1i64, true), Some(advertised)), ((2, false), Some(advertised)), ((3, false), None)] {
        assert_eq!(
            sync_peer(&mut a, entry, pq, None, &[], 0, 300, &mut installer, &mut rng, &bridge),
            Err(PeerSkip::NotDataPeer)
        );
    }
    assert!(a.relationships.is_empty());
    // A first sighting creates the relationship; as the lower identifier
    // this side proposes at once.
    let action = sync_peer(&mut a, (3, false), Some(advertised), Some((10, 20)), &[], 5, 300, &mut installer, &mut rng, &bridge)
        .unwrap();
    assert!(matches!(action, Action::Send(_)));
    let relationship = &a.relationships[&3];
    assert_eq!(relationship.remote, bundle_b);
    assert_eq!(relationship.activity.unwrap().last_active_at, 5);
    assert_eq!(relationship.sequence, n(2));
    // A retired first sighting is refused and nothing changes.
    let mut c = peer(4, &mut rng).0;
    let retired = AdvertisedBundle { lifecycle: Lifecycle::Retired, ..advertised };
    assert_eq!(
        sync_peer(&mut c, (3, false), Some(retired), None, &[], 0, 300, &mut installer, &mut rng, &bridge),
        Err(PeerSkip::Observe(Error::Invalid))
    );
    assert!(c.relationships.is_empty());
    drop(b);
}

fn page(peers: Vec<i64>, cursor: Option<&str>) -> StatePage<i64, ()> {
    StatePage {
        pq_version: 1,
        network_id: Binary([0; 16]),
        visibility_revision: n(1),
        peers: peers.into_iter().map(|p| PeerState { peer: p, is_server: false, pq: None }).collect(),
        cidrs: vec![],
        exchanges: vec![],
        next_cursor: cursor.map(|c| c.to_string()),
    }
}

#[test]
fn the_state_walk_restarts_on_a_revision_conflict() {
    let mut walk: StateWalk<i64> = StateWalk::new();
    assert_eq!(walk.step::<(), &str>(Ok(page(vec![1, 2], Some("c1")))), Ok(false));
    assert_eq!(walk.cursor.as_deref(), Some("c1"));
    assert_eq!(walk.step::<(), &str>(Err(TransportError::Conflict)), Ok(false));
    assert!(walk.peers.is_empty() && walk.cursor.is_none());
    assert_eq!(walk.step::<(), &str>(Ok(page(vec![1], Some("c2")))), Ok(false));
    assert_eq!(walk.step::<(), &str>(Err(TransportError::Other("down"))), Err("down"));
    assert_eq!(walk.peers.len(), 1);
    assert_eq!(walk.step::<(), &str>(Ok(page(vec![5], None))), Ok(true));
    let ids: Vec<i64> = walk.peers.iter().map(|p| p.peer).collect();
    assert_eq!(ids, vec![1, 5]);
}

#[test]
fn boot_gating_covers_every_relationship_with_a_directory_entry() {
    let mut rng = Counter(0);
    let bridge = toy();
    let (a, _) = two_peers(&mut rng, &bridge);
    let mut state = a;
    let remote = state.relationships[&3].remote;
    let key_text = remote.wg_public_key.encode_text();
    let peers = vec![
        (b"other".to_vec(), Element { v4: true, text: "10.0.0.9/32".to_string() }),
        (key_text.clone(), Element { v4: true, text: "10.0.0.3/32".to_string() }),
        (key_text, Element { v4: false, text: "fd00::3/128".to_string() }),
    ];
    let blocked = blocked_elements(&state, &peers);
    assert_eq!(blocked.len(), 1);
    assert_eq!(blocked[0].text, "10.0.0.3/32");
    state.relationships.clear();
    assert!(blocked_elements(&state, &peers).is_empty());
}

use innernet_rp::mailbox::{active_room, stored_bundle};

#[test]
fn active_exchanges_are_bounded_per_peer_and_overall() {
    let limits = Limits { peer_active: 2, global_active: 3, ..Limits::default() };
    assert_eq!(active_room(2, 1, 1, &limits), Ok(()));
    assert_eq!(active_room(3, 0, 0, &limits), Err(MailboxError::RateLimited));
    assert_eq!(active_room(0, 2, 0, &limits), Err(MailboxError::RateLimited));
    assert_eq!(active_room(0, 0, 2, &limits), Err(MailboxError::RateLimited));
}

#[test]
fn stored_bundle_rows_decode_only_when_complete() {
    let mut rng = Counter(0);
    let bridge = toy();
    let b = identity(5, 3, &mut rng).bundle;
    let keys = (
        &b.bundle_id.0[..],
        &b.wg_public_key.0[..],
        &b.pq_kem_public_key.0[..],
        &b.pq_x448_public_key.0[..],
        &b.pq_sig_public_key.0[..],
    );
    let advertised = stored_bundle(1, keys, 3, "enabled", &bridge).unwrap();
    assert_eq!(advertised, AdvertisedBundle { pq_version: 1, lifecycle: Lifecycle::Enabled, bundle: b });
    assert_eq!(stored_bundle(1, keys, 3, "retired", &bridge).unwrap().lifecycle, Lifecycle::Retired);
    assert_eq!(stored_bundle(1, keys, 3, "paused", &bridge), Err(MailboxError::Unavailable));
    assert_eq!(stored_bundle(2, keys, 3, "enabled", &bridge), Err(MailboxError::Unavailable));
    assert_eq!(stored_bundle(1, keys, 0, "enabled", &bridge), Err(MailboxError::Protocol(Error::Invalid)));
    assert_eq!(stored_bundle(1, keys, -3, "enabled", &bridge), Err(MailboxError::Protocol(Error::Invalid)));
    let short = (&b.bundle_id.0[..15], keys.1, keys.2, keys.3, keys.4);
    assert_eq!(stored_bundle(1, short, 3, "enabled", &bridge), Err(MailboxError::Unavailable));
}

#[test]
fn one_relationships_failure_does_not_block_another_in_the_same_cycle() {
    let mut rng = Counter(0);
    let bridge = toy();
    let (mut state, _own) = peer(2, &mut rng);
    let (_, bundle_b) = peer(3, &mut rng);
    let (_, bundle_c) = peer(4, &mut rng);
    state.observe_remote(n(3), &bundle_b, Lifecycle::Enabled, &bridge).unwrap();
    state.observe_remote(n(4), &bundle_c, Lifecycle::Enabled, &bridge).unwrap();
    // B's cached revision is ahead of what this cycle advertises, so B's
    // observation conflicts while C stays healthy.
    state.relationships.get_mut(&3).unwrap().remote.bundle_revision = n(5);
    let mut installer = FakeInstaller::new();
    let entries = [
        (3i64, false, Some(AdvertisedBundle { pq_version: 1, lifecycle: Lifecycle::Enabled, bundle: bundle_b }), None),
        (4i64, false, Some(AdvertisedBundle { pq_version: 1, lifecycle: Lifecycle::Enabled, bundle: bundle_c }), None),
    ];
    let results = sync_directory(&mut state, &entries, &[], 0, 300, &mut installer, &mut rng, &bridge);
    assert_eq!(results.len(), 2);
    assert_eq!(results[0], Err(PeerSkip::Observe(Error::Conflict)));
    let mut sent = Vec::new();
    for (entry, result) in entries.iter().zip(results) {
        if let Ok(Action::Send(_)) = result {
            sent.push(entry.0 as u64);
        }
    }
    assert!(
        state.relationships[&3].pending.is_none(),
        "B's observe_remote conflict must not create a pending exchange"
    );
    assert_eq!(sent, vec![4], "only C's healthy relationship should have attempted to send");
}

#[test]
fn a_bundle_less_peer_is_never_touched_by_the_engine_or_installer() {
    let mut rng = Counter(0);
    let bridge = toy();
    let (mut state, _own) = peer(2, &mut rng);
    let mut installer = FakeInstaller::new();
    let results = sync_directory(&mut state, &[(3, false, None, None)], &[], 0, 300, &mut installer, &mut rng, &bridge);
    assert_eq!(results, vec![Err(PeerSkip::NotDataPeer)]);
    assert!(
        !state.relationships.contains_key(&3),
        "a bundle-less peer must never get a Relationship"
    );
    assert!(installer.installed_psks.is_empty());
}

/// A small deterministic generator, so a failing schedule is reproducible
/// from its printed seed.
struct Lcg(u64);

impl Lcg {
    fn next_u64(&mut self) -> u64 {
        self.0 = self.0.wrapping_mul(6364136223846793005).wrapping_add(1442695040888963407);
        self.0
    }

    fn below(&mut self, bound: u32) -> u32 {
        (self.next_u64() % u64::from(bound)) as u32
    }
}

impl Random for Lcg {
    fn fill(&mut self, output: &mut [u8]) -> Result<(), Error> {
        for chunk in output.chunks_mut(8) {
            let word = self.next_u64().to_le_bytes();
            chunk.copy_from_slice(&word[..chunk.len()]);
        }
        Ok(())
    }
}

fn lcg_peer(id: u64, rng: &mut Lcg, bridge: &ToyBridge) -> (EndpointState, Bundle) {
    let identity = Identity::generate(Binary([id as u8; 32]), n(1), rng, bridge).unwrap();
    let bundle = identity.bundle;
    let state = EndpointState {
        network_id: Binary([9; 16]),
        peer_id: n(id),
        server_id: n(1),
        server_public_key: Binary([1; 32]),
        policy: Policy::Strict,
        registration: Registration {
            expected_revision: None,
            pq_version: 1,
            lifecycle: Lifecycle::Enabled,
            bundle,
            emergency: false,
        },
        identity,
        enrollment: Enrollment::Advertised,
        management: ManagementLink::generate(rng).unwrap(),
        relationships: BTreeMap::new(),
    };
    (state, bundle)
}

/// Like `apply`, but a message whose kind is not legal in the recorded
/// phase leaves the decision as it was, as the server answers a stale or
/// duplicate delivery with the existing outcome.
fn apply_lenient(existing: Option<Exchange>, action: &Action, sender: &EndpointState, other: u64) -> Option<Exchange> {
    let message = match action {
        Action::Send(message) => **message,
        _ => return existing,
    };
    let mut exchange = match existing {
        Some(e) => e,
        None => return apply(None, action, sender, other),
    };
    let sender_is_initiator = message.sender_id == exchange.initiator_id;
    let kind = message.validate_shape().unwrap();
    if kind != Kind::Propose {
        let _ = exchange.decision.advance(kind, sender_is_initiator);
    }
    exchange.messages.push(message);
    Some(exchange)
}

#[derive(Clone, Copy, Debug)]
enum Event {
    DeliverA,
    DeliverB,
    LoseResponseA,
    LoseResponseB,
    RestartA,
    RestartB,
    AdvanceTime(u64),
}

fn run_schedule(seed: u64, rotation_interval: u64) {
    let bridge = toy();
    let mut rng = Lcg(seed);
    let (mut a, bundle_a) = lcg_peer(2, &mut rng, &bridge);
    let (mut b, bundle_b) = lcg_peer(3, &mut rng, &bridge);
    let a_id = a.peer_id;
    let b_id = b.peer_id;
    a.observe_remote(b_id, &bundle_b, Lifecycle::Enabled, &bridge).unwrap();
    b.observe_remote(a_id, &bundle_a, Lifecycle::Enabled, &bridge).unwrap();
    let mut installer_a = FakeInstaller::new();
    let mut installer_b = FakeInstaller::new();
    let mut exchange: Option<Exchange> = None;
    let mut now = 0u64;
    let mut last_a = a.relationships[&3].sequence;
    let mut last_b = b.relationships[&2].sequence;
    let mut completions = 0;
    let mut history: Vec<[u8; 32]> = Vec::new();
    let mut events = Vec::new();
    for _ in 0..300 {
        let event = match rng.below(7) {
            0 => Event::DeliverA,
            1 => Event::DeliverB,
            2 => Event::LoseResponseA,
            3 => Event::LoseResponseB,
            4 => Event::RestartA,
            5 => Event::RestartB,
            _ => Event::AdvanceTime(1 + u64::from(rng.below(60))),
        };
        events.push(event);
        let step = |r: Result<Action, Error>, what: &str, events: &Vec<Event>| -> Action {
            match r {
                Ok(action) => action,
                Err(e) => panic!("seed {seed} failed at {what} ({e:?}); schedule so far: {events:?}"),
            }
        };
        match event {
            Event::DeliverA => {
                let r = a.reconcile(b_id, exchange.as_ref(), now, rotation_interval, &mut installer_a, &mut rng, &bridge);
                let action = step(r, "A reconcile", &events);
                exchange = apply_lenient(exchange, &action, &a, 3);
            }
            Event::DeliverB => {
                let r = b.reconcile(a_id, exchange.as_ref(), now, rotation_interval, &mut installer_b, &mut rng, &bridge);
                let action = step(r, "B reconcile", &events);
                exchange = apply_lenient(exchange, &action, &b, 2);
            }
            Event::LoseResponseA => {
                // The message never reaches the server.
                let r = a.reconcile(b_id, exchange.as_ref(), now, rotation_interval, &mut installer_a, &mut rng, &bridge);
                step(r, "A reconcile (lost)", &events);
            }
            Event::LoseResponseB => {
                let r = b.reconcile(a_id, exchange.as_ref(), now, rotation_interval, &mut installer_b, &mut rng, &bridge);
                step(r, "B reconcile (lost)", &events);
            }
            // A restart reloads exactly what was persisted.
            Event::RestartA => a = a.clone(),
            Event::RestartB => b = b.clone(),
            Event::AdvanceTime(seconds) => now += seconds,
        }
        let sequence_a = a.relationships[&3].sequence;
        let sequence_b = b.relationships[&2].sequence;
        if sequence_a.get() < last_a.get() || sequence_b.get() < last_b.get() {
            panic!("seed {seed}: a sequence number decreased; schedule: {events:?}");
        }
        last_a = sequence_a;
        last_b = sequence_b;
        if let Some(confirmed) = &a.relationships[&3].confirmed {
            let psk = confirmed.psk.0 .0;
            if history.last() != Some(&psk) {
                if history.contains(&psk) {
                    panic!("seed {seed}: an old candidate was reinstalled; schedule: {events:?}");
                }
                completions += 1;
                history.push(psk);
            }
        }
    }
    if rotation_interval <= 5 && completions == 0 {
        panic!("seed {seed} never completed a single rotation; schedule: {events:?}");
    }
}

#[test]
fn seeded_fault_schedules_never_violate_safety_invariants() {
    for seed in 0..300u64 {
        run_schedule(seed.wrapping_mul(0x9E3779B97F4A7C15).wrapping_add(1), 5);
    }
}

#[test]
fn provisioning_every_enabled_peer_latches_readiness_and_yields_independent_psks() {
    let mut rng = Counter(0);
    let mut server = empty_server();
    // (identifier, disabled): the server itself, two enabled peers, one disabled.
    let peers = [(9i64, false), (1, false), (2, false), (3, true)];
    let enabled = [1i64, 2];
    assert_eq!(server.missing_link(&peers), Some(1));
    for (index, id) in enabled.iter().enumerate() {
        server.provision(n(*id as u64), None, &mut rng).unwrap();
        assert_eq!(server.missing_link(&peers).is_none(), index + 1 == enabled.len());
    }
    // Every peer's link is independent, and provisioning again is idempotent.
    let first = server.links[&1].psk;
    let second = server.links[&2].psk;
    assert!(!first.0.same(&second.0));
    server.provision(n(1), None, &mut rng).unwrap();
    let again = server.enrollment(1).unwrap();
    assert!(again.psk.bytes() == &first.0 .0);
    assert_eq!(again.peer_id, 1);
    assert_eq!(again.server_id, 9);
    assert!(server.enrollment(3).is_err());
    server.validate().unwrap();
}

#[test]
fn load_fails_closed_when_an_enabled_peer_has_no_provisioned_link() {
    let mut rng = Counter(0);
    let mut server = empty_server();
    let peers = [(9i64, false), (1, false), (2, false), (3, false)];
    for id in [1u64, 2] {
        server.provision(n(id), None, &mut rng).unwrap();
    }
    assert_eq!(server.missing_link(&peers), Some(3));
    // An invalid identifier can never have a link.
    assert_eq!(server.missing_link(&[(0, false)]), Some(0));
}

#[test]
fn preparation_adopts_given_secrets_for_enabled_peers_only() {
    let mut rng = Counter(0);
    let mut server = empty_server();
    let peers = [(9i64, false), (1, false), (2, false), (3, true)];
    let mut adopted = BTreeMap::new();
    adopted.insert(2u64, Secret::from_bytes([5; 32]));
    assert!(adoption_ok(&adopted, &peers, 9));
    server.provision_peers(&peers, &adopted, &mut rng).unwrap();
    assert!(server.links.contains_key(&1));
    assert_eq!(server.links[&2].psk.0 .0, [5; 32]);
    assert!(!server.links.contains_key(&3));
    assert!(!server.links.contains_key(&9));
    assert_eq!(server.missing_link(&peers), None);
    // Running it again keeps every link as it was.
    let before = server.links[&1];
    server.provision_peers(&peers, &adopted, &mut rng).unwrap();
    assert_eq!(server.links[&1].provision_id, before.provision_id);
    for bad in [3u64, 9, 4] {
        let mut file = BTreeMap::new();
        file.insert(bad, Secret::from_bytes([5; 32]));
        assert!(!adoption_ok(&file, &peers, 9));
    }
}

#[test]
fn a_link_is_marked_verified_once_and_state_is_bound_to_its_server() {
    let mut rng = Counter(0);
    let (mut server, _) = server_with_one_link(&mut rng);
    assert!(!server.links[&1].verified);
    assert_eq!(server.mark_verified(1), Ok(true));
    assert!(server.links[&1].verified);
    // Already verified: nothing to save.
    assert_eq!(server.mark_verified(1), Ok(false));
    assert_eq!(server.mark_verified(2), Err(Error::Invalid));
    assert_eq!(server.mark_verified(0), Err(Error::Invalid));
    assert!(server.belongs_to(&Binary([1; 16]), &[1; 32]));
    assert!(!server.belongs_to(&Binary([2; 16]), &[1; 32]));
    assert!(!server.belongs_to(&Binary([1; 16]), &[2; 32]));
}

/// Durable storage that can fail just before or just after a write lands.
#[derive(Clone, Copy)]
enum Fault {
    Healthy,
    After,
}

struct Storage<T> {
    durable: T,
    fault: Fault,
}

impl<T: Clone> Storage<T> {
    fn write(&mut self, next: &T) -> Result<(), ()> {
        self.durable = next.clone();
        match self.fault {
            Fault::After => Err(()),
            Fault::Healthy => Ok(()),
        }
    }

    fn restart(&self) -> T {
        self.durable.clone()
    }
}

#[test]
fn durable_receipts_and_replay_high_water_model() {
    let mut storage = Storage { durable: (n(1), Decision::default()), fault: Fault::Healthy };
    let mut current = storage.restart();
    current.1.advance(Kind::Ready, false).unwrap();
    storage.write(&current).unwrap();
    current.1.advance(Kind::Commit, true).unwrap();
    storage.fault = Fault::After;
    assert!(storage.write(&current).is_err());
    let (high_water, mut decision) = storage.restart();
    decision.expire();
    assert_eq!(decision.phase, Phase::Committed);
    assert!(decision.advance(Kind::Abort, true).is_err());
    assert_eq!(high_water.get(), 1);
    assert_eq!(high_water.next().unwrap().get(), 2);
}

#[test]
fn each_combiner_input_changes_keys_and_confirmation() {
    let bridge = toy();
    let a = Secret::from_bytes([1; 32]);
    let b = Secret::from_bytes([2; 32]);
    let x = Secret::from_bytes([3; 56]);
    let y = Secret::from_bytes([4; 56]);
    let absent = Secret::from_bytes([0; 32]);
    let derive = innernet_rp::crypto::derive::<ToyBridge>;
    let first = derive(&a, &x, &absent, b"context", &bridge).unwrap();
    for changed in [
        derive(&b, &x, &absent, b"context", &bridge).unwrap(),
        derive(&a, &y, &absent, b"context", &bridge).unwrap(),
        derive(&a, &x, &b, b"context", &bridge).unwrap(),
        derive(&a, &x, &absent, b"changed", &bridge).unwrap(),
    ] {
        assert!(!first.psk.same(&changed.psk));
        assert_ne!(
            bridge.hmac(&first.initiator_confirmation, b"message").unwrap(),
            bridge.hmac(&changed.initiator_confirmation, b"message").unwrap()
        );
    }
}

#[test]
fn registration_outcomes_follow_the_bundle_check_and_the_request() {
    let mut rng = Counter(0);
    let bundle = identity(5, 1, &mut rng).bundle;
    let request = Registration {
        expected_revision: None,
        pq_version: 1,
        lifecycle: Lifecycle::Enabled,
        bundle,
        emergency: false,
    };
    let key = Some([5u8; 32]);
    // A failed bundle check is returned as a protocol error, first.
    assert_eq!(
        registration_given(&None, &Registration { pq_version: 2, ..request }, key, Err(Error::Crypto)),
        Err(MailboxError::Protocol(Error::Crypto))
    );
    assert_eq!(
        registration_given(&None, &Registration { pq_version: 2, ..request }, key, Ok(())),
        Err(MailboxError::InvalidQuery)
    );
    assert_eq!(
        registration_given(&None, &Registration { emergency: true, ..request }, key, Ok(())),
        Err(MailboxError::InvalidQuery)
    );
    assert_eq!(registration_given(&None, &request, key, Ok(())), Ok(RegistrationStep::Proceed(n(1))));
    // A revision that is not the next conflicts.
    let mut wrong = request;
    wrong.bundle.bundle_revision = n(2);
    assert_eq!(registration_given(&None, &wrong, key, Ok(())), Err(MailboxError::Conflict));
}

use innernet_rp::client::{boot_plan, directory_source, BootPlan, FetchOutcome, FetchRefusal};
use innernet_rp::paging::decode_cursor_given;

#[test]
fn a_down_interface_is_brought_up_only_when_asked_and_the_gate_comes_first() {
    assert_eq!(boot_plan(true, false, true, true), Ok(BootPlan { restore_gate: false, bring_up: false }));
    assert_eq!(boot_plan(false, false, true, true), Err(FetchRefusal::InterfaceDown));
    assert_eq!(boot_plan(false, true, true, true), Ok(BootPlan { restore_gate: true, bring_up: true }));
    assert_eq!(boot_plan(false, true, true, false), Ok(BootPlan { restore_gate: false, bring_up: true }));
    assert_eq!(boot_plan(false, true, false, true), Ok(BootPlan { restore_gate: false, bring_up: true }));
}

#[test]
fn an_unreachable_server_falls_back_to_the_cache_without_pq() {
    assert_eq!(directory_source(FetchOutcome::Fetched, true, true), Ok((true, true)));
    assert_eq!(directory_source(FetchOutcome::Fetched, false, false), Ok((true, false)));
    assert_eq!(directory_source(FetchOutcome::Unreachable, false, true), Ok((false, false)));
    assert_eq!(directory_source(FetchOutcome::Unreachable, true, true), Err(FetchRefusal::NoDirectory));
    assert_eq!(directory_source(FetchOutcome::Failed, false, true), Err(FetchRefusal::ServerError));
}

#[test]
fn cursor_outcomes_follow_the_tag_and_the_fields() {
    let bridge = toy();
    let key = Secret::from_bytes([4u8; 32]);
    let text = encode_cursor(&key, [7, 11, 1, 42], &bridge).unwrap();
    let body: Vec<u8> = [7u64, 11, 1, 42].iter().flat_map(|v| v.to_be_bytes()).collect();
    let tag = bridge.hmac(&key, &body).unwrap();
    assert_eq!(decode_cursor_given(&text, 7, 11, Ok(tag)), Ok((1, 42)));
    assert_eq!(decode_cursor_given(&text, 8, 11, Ok(tag)), Err(MailboxError::Conflict));
    assert_eq!(decode_cursor_given(&text, 7, 12, Ok(tag)), Err(MailboxError::Conflict));
    assert_eq!(decode_cursor_given(&text, 7, 11, Ok([0u8; 32])), Err(MailboxError::InvalidQuery));
    assert_eq!(decode_cursor_given(&text, 7, 11, Err(Error::Crypto)), Err(MailboxError::Protocol(Error::Crypto)));
    assert_eq!(decode_cursor_given(b"bad", 7, 11, Ok(tag)), Err(MailboxError::InvalidQuery));
}

fn hex(data: &[u8]) -> String {
    data.iter().map(|b| format!("{b:02x}")).collect()
}

#[test]
fn independently_encoded_bundles_transcript_and_combiner() {
    let bridge = toy();
    let mut rng = Counter(11);
    let (_, bundle_i) = peer(2, &mut rng);
    let (_, bundle_r) = peer(3, &mut rng);
    let t = Transcript {
        network_id: Binary([9; 16]),
        initiator_id: n(2),
        responder_id: n(3),
        initiator: bundle_i,
        responder: bundle_r,
        sequence: n(5),
        exchange_id: Binary([4; 16]),
        operator_psk_id: Binary([6; 16]),
        ciphertext: Binary(std::array::from_fn(|i| (i % 251) as u8)),
    };
    t.validate(&bridge).unwrap();
    let bundle_hex = |b: &Bundle| {
        [
            hex(&b.bundle_id.0),
            hex(&b.bundle_revision.get().to_be_bytes()),
            hex(&b.wg_public_key.0),
            hex(&b.pq_kem_public_key.0),
            hex(&b.pq_x448_public_key.0),
            hex(&b.pq_sig_public_key.0),
        ]
        .concat()
    };
    assert_eq!(t.initiator.encode().len(), 1747);
    assert_eq!(hex(&t.initiator.encode()), bundle_hex(&t.initiator));
    assert_eq!(hex(&t.responder.encode()), bundle_hex(&t.responder));
    let transcript_hex = [
        hex(b"innernet pq-psk v1 transcript"),
        "01".to_string(),
        hex(&[9; 16]),
        hex(&2u64.to_be_bytes()),
        hex(&3u64.to_be_bytes()),
        bundle_hex(&t.initiator),
        bundle_hex(&t.responder),
        hex(&5u64.to_be_bytes()),
        hex(&[4; 16]),
        hex(&[6; 16]),
        hex(&t.ciphertext.0),
    ]
    .concat();
    assert_eq!(hex(&t.encode()), transcript_hex);
    // The combiner's inputs: KEM secret, X448 secret and operator PSK, then
    // each label followed by the transcript hash.
    let kem = Secret::from_bytes(std::array::from_fn(|i| i as u8));
    let dh = Secret::from_bytes(std::array::from_fn(|i| i as u8));
    let operator = Secret::from_bytes([0; 32]);
    let salt = bridge.hash(&t.encode()).unwrap();
    let (ikm, psk_info, initiator_info, responder_info) =
        innernet_rp::crypto::expansion_inputs(&kem, &dh, &operator, &salt);
    let expected_ikm: Vec<u8> = (0..32u8).chain(0..56u8).chain([0u8; 32]).collect();
    assert_eq!(ikm.to_vec(), expected_ikm);
    assert_eq!(psk_info, [&b"innernet pq-psk v1 psk"[..], &salt[..]].concat());
    assert_eq!(initiator_info, [&b"innernet pq-psk v1 confirm i"[..], &salt[..]].concat());
    assert_eq!(responder_info, [&b"innernet pq-psk v1 confirm r"[..], &salt[..]].concat());
    let c = innernet_rp::crypto::derive(&kem, &dh, &operator, &t.encode(), &bridge).unwrap();
    assert!(!c.psk.same(&c.initiator_confirmation));
    assert!(!c.initiator_confirmation.same(&c.responder_confirmation));
}

#[test]
fn a_compacted_complete_record_completes_the_lagging_side() {
    let mut rng = Counter(3);
    let bridge = toy();
    let (mut a, mut b) = two_peers(&mut rng, &bridge);
    let mut installer_a = FakeInstaller::default();
    let mut installer_b = FakeInstaller::default();
    let mut exchange: Option<Exchange> = None;
    let mut now = 0;
    // Step both sides until the server's record is complete.
    while exchange.as_ref().map(|e| e.decision.phase) != Some(Phase::Complete) {
        assert!(now < 40);
        let action = a.reconcile(n(3), exchange.as_ref(), now, 300, &mut installer_a, &mut rng, &bridge).unwrap();
        exchange = apply(exchange, &action, &a, 3);
        if exchange.as_ref().map(|e| e.decision.phase) == Some(Phase::Complete) {
            break;
        }
        let action = b.reconcile(n(2), exchange.as_ref(), now, 300, &mut installer_b, &mut rng, &bridge).unwrap();
        exchange = apply(exchange, &action, &b, 2);
        now += 1;
    }
    let mut record = exchange.unwrap();
    let transcript = record.transcript.unwrap();
    record.compact();
    assert!(record.transcript.is_none() && record.messages.is_empty());
    for (state, other, installer) in [(&mut a, 3u64, &mut installer_a), (&mut b, 2u64, &mut installer_b)] {
        if state.relationships[&other].pending.is_none() {
            continue;
        }
        let psk = state.relationships[&other].pending.as_ref().unwrap().candidate.psk.0 .0;
        let installs = installer.installed_psks.len();
        let action = state.reconcile(n(other), Some(&record), now + 1, 300, installer, &mut rng, &bridge).unwrap();
        assert_eq!(action, Action::Complete);
        let r = &state.relationships[&other];
        assert!(r.pending.is_none() && r.prior_pq);
        assert_eq!(r.status, Status::Confirmed);
        let confirmed = r.confirmed.unwrap();
        assert_eq!(confirmed.psk.0 .0, psk);
        assert_eq!(confirmed.sequence, transcript.sequence);
        assert_eq!(confirmed.exchange_id, transcript.exchange_id);
        assert_eq!(confirmed.transcript_hash.0, digest(&[&transcript.encode()]));
        assert_eq!(confirmed.completed_at, now + 1);
        assert_eq!(installer.installed_psks.len(), installs);
    }
    assert_eq!(
        a.relationships[&3].confirmed.unwrap().psk.0 .0,
        b.relationships[&2].confirmed.unwrap().psk.0 .0
    );
}

#[test]
fn a_redelivered_proposal_is_an_identical_retry() {
    let mut rng = Counter(5);
    let bridge = toy();
    let (mut a, b) = two_peers(&mut rng, &bridge);
    let mut mailbox = Mailbox { network_id: Binary([9; 16]), records: vec![] };
    let mut installer = FakeInstaller::new();
    let bundles = (a.identity.bundle, b.identity.bundle);
    let propose = match a.reconcile(n(3), None, 0, 300, &mut installer, &mut rng, &bridge).unwrap() {
        Action::Send(m) => *m,
        other => panic!("expected a proposal, got {other:?}"),
    };
    mailbox.submit(&propose, 2, 3, (&bundles.0, &bundles.1), 0, &bridge).unwrap();
    let opened = mailbox.record().unwrap().clone();
    assert_eq!(opened.receipts.len(), 1);
    // The same proposal again changes nothing.
    mailbox.submit(&propose, 2, 3, (&bundles.0, &bundles.1), 1, &bridge).unwrap();
    assert_eq!(mailbox.records.len(), 1);
    assert_eq!(mailbox.record().unwrap(), &opened);
    // A commit from the initiator before the responder's ready is refused.
    let pending = a.relationships[&3].pending.as_ref().unwrap();
    let commit = Message::signed(
        &pending.transcript,
        Kind::Commit,
        n(2),
        &pending.candidate.candidate(),
        &a.identity.signing.0,
        &bridge,
    )
    .unwrap();
    assert!(matches!(
        mailbox.submit(&commit, 2, 3, (&bundles.0, &bundles.1), 2, &bridge),
        Err(MailboxError::Protocol(Error::Conflict))
    ));
    assert_eq!(mailbox.record().unwrap(), &opened);
}

#[test]
fn an_altered_tag_or_signature_is_refused() {
    let mut rng = Counter(9);
    let bridge = toy();
    let (mut a, _) = two_peers(&mut rng, &bridge);
    let mut installer = FakeInstaller::new();
    let propose = match a.reconcile(n(3), None, 0, 300, &mut installer, &mut rng, &bridge).unwrap() {
        Action::Send(m) => *m,
        other => panic!("expected a proposal, got {other:?}"),
    };
    let pending = a.relationships[&3].pending.as_ref().unwrap();
    let candidate = pending.candidate.candidate();
    propose.authenticate(&pending.transcript, &bridge).unwrap();
    propose.confirm(&candidate, &bridge).unwrap();
    let mut tag = propose.tag.0;
    tag[0] ^= 1;
    let altered = propose.seal(tag, propose.signature.0);
    assert_eq!(altered.confirm(&candidate, &bridge), Err(Error::Crypto));
    assert_eq!(altered.authenticate(&pending.transcript, &bridge), Err(Error::Crypto));
    let mut signature = propose.signature.0;
    signature[131] ^= 1;
    let altered = propose.seal(propose.tag.0, signature);
    assert_eq!(altered.authenticate(&pending.transcript, &bridge), Err(Error::Crypto));
}

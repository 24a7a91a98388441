//! Client-side exchange-driving decisions. No network or kernel I/O beyond
//! the `Installer` trait: the caller performs the HTTP round trip and the
//! kernel action, and must persist the mutated `EndpointState` before
//! acting on the returned `Action` (never send or install before the
//! corresponding intent is durable).
use vstd::prelude::*;

use crate::api::Exchange;
use crate::crypto::{
    derived, encapsulate, hash_is_function, hashes_to, hkdf_is_function, random, tags_to,
    verifies_to, Bridge, Candidate, HybridPublic, HybridSecret, HybridShared, Random, Secret,
};
use crate::protocol::{
    drafted, envelope_bytes, ids_bound, is_terminal, payload_bound, sender_confirmation, shape,
    signer, transcript_bytes, Binary, Bundle, Decision, Kind, Message, Number, Phase, Transcript,
};
use crate::state::{CandidateSecrets, Confirmed, EndpointState, Pending, Relationship, Status, StoredSecret};
use crate::Error;
use std::collections::{BTreeMap, BTreeSet};
use vstd::std_specs::btree::key_obeys_cmp_spec;

verus! {

/// Installs a candidate PSK and observes a fresh authenticated handshake.
/// A real implementation gates the peer's application traffic before
/// `install` touches the kernel, and releases that gate when
/// `handshake_fresh` reports true: the engine has no separate release
/// action.
pub trait Installer {
    /// Every PSK installed so far, in order, with the bundle ID of the peer
    /// it was installed for.
    spec fn installs(&self) -> Seq<(Seq<u8>, Seq<u8>)>;

    /// Installs `candidate`'s PSK for the peer with `bundle`; a successful
    /// install is recorded, a failed one records nothing.
    fn install(&mut self, bundle: &Bundle, candidate: &Candidate) -> (r: Result<(), Error>)
        ensures
            final(self).installs() == if r is Ok {
                old(self).installs().push((bundle.bundle_id@, candidate.psk@))
            } else {
                old(self).installs()
            },
    ;

    /// Whether a fresh handshake was seen for the peer with `bundle`; it
    /// installs nothing.
    fn handshake_fresh(&mut self, bundle: &Bundle) -> (r: Result<bool, Error>)
        ensures
            final(self).installs() == old(self).installs(),
    ;
}

/// Records calls instead of touching WireGuard: `handshake_fresh` reports
/// true exactly once per install, as one fresh handshake being observed.
pub struct FakeInstaller {
    pub installed_psks: BTreeMap<[u8; 16], [u8; 32]>,
    handshake_seen: BTreeSet<[u8; 16]>,
    log: Ghost<Seq<(Seq<u8>, Seq<u8>)>>,
}

impl FakeInstaller {
    /// The PSK installed for each bundle ID.
    pub closed spec fn installed(self) -> Map<[u8; 16], [u8; 32]> {
        self.installed_psks@
    }

    /// The bundle IDs whose fresh handshake was already reported.
    pub closed spec fn seen(self) -> Set<[u8; 16]> {
        self.handshake_seen@
    }

    pub fn new() -> (r: FakeInstaller)
        ensures
            r.installed() == Map::<[u8; 16], [u8; 32]>::empty(),
            r.seen() == Set::<[u8; 16]>::empty(),
            r.installs() == Seq::<(Seq<u8>, Seq<u8>)>::empty(),
    {
        FakeInstaller {
            installed_psks: BTreeMap::new(),
            handshake_seen: BTreeSet::new(),
            log: Ghost(Seq::empty()),
        }
    }
}

impl Default for FakeInstaller {
    fn default() -> (r: FakeInstaller)
        ensures
            r.installed() == Map::<[u8; 16], [u8; 32]>::empty(),
            r.seen() == Set::<[u8; 16]>::empty(),
            r.installs() == Seq::<(Seq<u8>, Seq<u8>)>::empty(),
    {
        FakeInstaller::new()
    }
}

impl Installer for FakeInstaller {
    closed spec fn installs(&self) -> Seq<(Seq<u8>, Seq<u8>)> {
        self.log@
    }

    fn install(&mut self, bundle: &Bundle, candidate: &Candidate) -> (r: Result<(), Error>)
        ensures
            r == Ok::<(), Error>(()),
            key_obeys_cmp_spec::<[u8; 16]>() ==> final(self).installed() == old(self).installed().insert(
                bundle.bundle_id.0,
                candidate.psk.0,
            ) && final(self).seen() == old(self).seen().remove(bundle.bundle_id.0),
    {
        self.installed_psks.insert(bundle.bundle_id.0, candidate.psk.0);
        self.handshake_seen.remove(&bundle.bundle_id.0);
        self.log = Ghost(self.log@.push((bundle.bundle_id@, candidate.psk@)));
        Ok(())
    }

    fn handshake_fresh(&mut self, bundle: &Bundle) -> (r: Result<bool, Error>)
        ensures
            r is Ok,
            final(self).installed() == old(self).installed(),
            key_obeys_cmp_spec::<[u8; 16]>() ==> r == Ok::<bool, Error>(
                !old(self).seen().contains(bundle.bundle_id.0),
            ) && final(self).seen() == old(self).seen().insert(bundle.bundle_id.0),
    {
        Ok(self.handshake_seen.insert(bundle.bundle_id.0))
    }
}

/// What the caller must do after persisting the state.
#[derive(Clone, Debug, PartialEq, Eq)]
pub enum Action {
    /// Sign and PUT this message to the peer's exchange mailbox.
    Send(Box<Message>),
    /// The exchange completed; the relationship's `confirmed` holds the PSK.
    Complete,
    /// Nothing to do this cycle.
    Idle,
}

/// Whether the server's record shows this side's last queued message as
/// received: the record is this exchange's, and either already terminal
/// (which took every needed message) or holds a message of the same type
/// from this side. An empty queue needs nothing.
pub open spec fn sent_durably(remote: Option<Exchange>, pending: Pending, self_id: Number) -> bool {
    match remote {
        None => false,
        Some(e) => {
            if e.exchange_id != pending.transcript.exchange_id || e.sequence@
                != pending.transcript.sequence@ {
                false
            } else if is_terminal(e.decision.phase) {
                true
            } else if pending.outbox@.len() == 0 {
                true
            } else {
                exists|i: int|
                    0 <= i < e.messages@.len() && (#[trigger] e.messages@[i]).sender_id@
                        == self_id@ && e.messages@[i].message_type == pending.outbox@.last().message_type
            }
        },
    }
}

#[verifier::loop_isolation(false)]
fn durably_sent(remote: Option<&Exchange>, pending: &Pending, self_id: Number) -> (r: bool)
    ensures
        r == sent_durably(
            match remote {
                Some(e) => Some(*e),
                None => None,
            },
            *pending,
            self_id,
        ),
{
    let exchange = match remote {
        Some(e) => e,
        None => return false,
    };
    if !crate::protocol::same_bytes(&exchange.exchange_id.0, &pending.transcript.exchange_id.0)
        || exchange.sequence.get() != pending.transcript.sequence.get() {
        return false;
    }
    if exchange.decision.terminal() {
        return true;
    }
    if pending.outbox.len() == 0 {
        return true;
    }
    let last_type = pending.outbox[pending.outbox.len() - 1].message_type;
    assert(pending.outbox@.last().message_type == last_type);
    let me = self_id.get();
    let mut i: usize = 0;
    while i < exchange.messages.len()
        invariant
            i <= exchange.messages@.len(),
            me == self_id@,
            pending.outbox@.len() > 0,
            last_type == pending.outbox@.last().message_type,
            forall|j: int|
                0 <= j < i ==> !((#[trigger] exchange.messages@[j]).sender_id@ == me
                    && exchange.messages@[j].message_type == last_type),
        decreases exchange.messages@.len() - i,
    {
        let m = &exchange.messages[i];
        if m.sender_id.get() == me && m.message_type == last_type {
            proof {
                let e = *exchange;
                assert(e.messages@[i as int].sender_id@ == self_id@);
                assert(exists|j: int|
                    0 <= j < e.messages@.len() && (#[trigger] e.messages@[j]).sender_id@
                        == self_id@ && e.messages@[j].message_type
                        == pending.outbox@.last().message_type);
            }
            return true;
        }
        i += 1;
    }
    false
}

/// Whether a new rotation is due: nothing confirmed yet, or at least
/// `interval` seconds since the last completion (a clock behind the
/// completion time counts as no time passed).
pub open spec fn rotation_due(confirmed: Option<Confirmed>, now: u64, interval: u64) -> bool {
    match confirmed {
        None => true,
        Some(c) => (if now >= c.completed_at {
            now - c.completed_at
        } else {
            0
        }) >= interval,
    }
}

/// What this endpoint contributes to one exchange step.
struct Local {
    network_id: Binary<16>,
    self_id: Number,
    other: Number,
    initiator: bool,
    bundle: Bundle,
    signing: Secret<66>,
    hybrid: HybridSecret,
}

/// The candidate a pending exchange holds.
pub open spec fn held(c: CandidateSecrets) -> Candidate {
    Candidate {
        psk: c.psk.0,
        initiator_confirmation: c.initiator_confirmation.0,
        responder_confirmation: c.responder_confirmation.0,
    }
}

/// The responder's hybrid public key as a transcript names it.
pub open spec fn responder_key(t: Transcript) -> HybridPublic {
    HybridPublic { kem: t.responder.pq_kem_public_key.0, x448: t.responder.pq_x448_public_key.0 }
}

/// The initiator's candidate for `t`: the bridge encapsulated to the
/// responder's key, giving the transcript's ciphertext and the shared
/// secrets from which, with the operator PSK, the candidate was derived.
pub open spec fn proposed<B: Bridge>(bridge: &B, t: Transcript, operator: Seq<u8>, c: CandidateSecrets) -> bool {
    exists|shared: HybridShared|
        #[trigger] call_ensures(
            B::hybrid_encapsulate,
            (bridge, &responder_key(t)),
            Ok::<([u8; 1624], HybridShared), Error>((t.ciphertext.0, shared)),
        ) && derived(bridge, shared.kem@ + shared.x448@ + operator, transcript_bytes(t), Ok(held(c)))
}

/// The responder's candidate for `t`: the bridge decapsulated the
/// transcript's ciphertext with the responder's private key, and the
/// candidate was derived from those shared secrets and the operator PSK.
pub open spec fn answered<B: Bridge>(
    bridge: &B,
    t: Transcript,
    private: HybridSecret,
    operator: Seq<u8>,
    c: CandidateSecrets,
) -> bool {
    exists|shared: HybridShared|
        #[trigger] call_ensures(
            B::hybrid_decapsulate,
            (bridge, &t.ciphertext.0, &private),
            Ok::<HybridShared, Error>(shared),
        ) && derived(bridge, shared.kem@ + shared.x448@ + operator, transcript_bytes(t), Ok(held(c)))
}

/// The responder, decapsulating the transcript's ciphertext with
/// `private`, gets the shared secrets the initiator's encapsulation gave.
pub open spec fn kem_agrees<B: Bridge>(bridge: &B, t: Transcript, private: HybridSecret) -> bool {
    forall|sent: HybridShared, received: HybridShared|
        #![trigger call_ensures(B::hybrid_encapsulate, (bridge, &responder_key(t)), Ok::<([u8; 1624], HybridShared), Error>((t.ciphertext.0, sent))), call_ensures(B::hybrid_decapsulate, (bridge, &t.ciphertext.0, &private), Ok::<HybridShared, Error>(received))]
        call_ensures(
            B::hybrid_encapsulate,
            (bridge, &responder_key(t)),
            Ok::<([u8; 1624], HybridShared), Error>((t.ciphertext.0, sent)),
        ) && call_ensures(
            B::hybrid_decapsulate,
            (bridge, &t.ciphertext.0, &private),
            Ok::<HybridShared, Error>(received),
        ) ==> sent == received
}

/// The two sides of one exchange hold one candidate, and so install one
/// PSK, when the bridge behaves: the responder's decapsulation agrees with
/// the initiator's encapsulation, and hashing and HKDF give one outcome per
/// input.
pub proof fn lemma_both_sides_hold_one_candidate<B: Bridge>(
    bridge: &B,
    t: Transcript,
    private: HybridSecret,
    operator: Seq<u8>,
    initiator: CandidateSecrets,
    responder: CandidateSecrets,
)
    requires
        proposed(bridge, t, operator, initiator),
        answered(bridge, t, private, operator, responder),
        kem_agrees(bridge, t, private),
        hash_is_function(bridge),
        hkdf_is_function(bridge),
    ensures
        initiator == responder,
{
    let sent = choose|shared: HybridShared|
        #[trigger] call_ensures(
            B::hybrid_encapsulate,
            (bridge, &responder_key(t)),
            Ok::<([u8; 1624], HybridShared), Error>((t.ciphertext.0, shared)),
        ) && derived(
            bridge,
            shared.kem@ + shared.x448@ + operator,
            transcript_bytes(t),
            Ok(held(initiator)),
        );
    let received = choose|shared: HybridShared|
        #[trigger] call_ensures(
            B::hybrid_decapsulate,
            (bridge, &t.ciphertext.0, &private),
            Ok::<HybridShared, Error>(shared),
        ) && derived(
            bridge,
            shared.kem@ + shared.x448@ + operator,
            transcript_bytes(t),
            Ok(held(responder)),
        );
    assert(sent == received);
    crate::crypto::lemma_derivation_is_determined(
        bridge,
        sent.kem@ + sent.x448@ + operator,
        transcript_bytes(t),
        Ok(held(initiator)),
        Ok(held(responder)),
    );
    assert(held(initiator) == held(responder));
}

/// The pending exchange a relationship starts with its first message.
pub open spec fn started(p: Pending, message: Message, decision: Decision) -> bool {
    &&& p.decision == decision
    &&& p.outbox@ == seq![message]
    &&& !p.installation_intent
    &&& !p.installed
    &&& !p.confirmed
    &&& p.attempts == 0
    &&& p.next_retry_at == 0
}

fn start_initiator<R: Random, B: Bridge>(
    local: &Local,
    relationship: &mut Relationship,
    rng: &mut R,
    bridge: &B,
) -> (r: Result<Action, Error>)
    requires
        old(relationship).pending is None,
        local.initiator,
        local.self_id@ < local.other@,
    ensures
        final(relationship).remote == old(relationship).remote,
        final(relationship).confirmed == old(relationship).confirmed,
        final(relationship).gated == old(relationship).gated,
        final(relationship).status == old(relationship).status,
        final(relationship).prior_pq == old(relationship).prior_pq,
        final(relationship).operator_psk == old(relationship).operator_psk,
        final(relationship).operator_psk_id == old(relationship).operator_psk_id,
        final(relationship).activity == old(relationship).activity,
        final(relationship).sequence@ == old(relationship).sequence@
            || final(relationship).sequence@ == old(relationship).sequence@ + 1,
        r is Err ==> final(relationship).pending is None,
        // The last sequence number cannot start another exchange.
        old(relationship).sequence@ == crate::protocol::NUMBER_MAX ==> r == Err::<Action, Error>(
            Error::Invalid,
        ) && *final(relationship) == *old(relationship),
        // A remote KEM key that fails the modulus check is refused.
        crate::crypto::kem_check(old(relationship).remote.pq_kem_public_key@) is Err ==> r is Err,
        r is Ok ==> {
            &&& r matches Ok(Action::Send(m))
            &&& final(relationship).sequence@ == old(relationship).sequence@ + 1
            &&& final(relationship).pending matches Some(p) && {
                &&& started(p, *m, p.decision)
                &&& p.decision.phase == Phase::Proposed
                &&& p.transcript.sequence == old(relationship).sequence
                &&& p.transcript.initiator_id == local.self_id
                &&& p.transcript.responder_id == local.other
                &&& p.transcript.initiator == local.bundle
                &&& p.transcript.responder == old(relationship).remote
                &&& p.transcript.network_id == local.network_id
                &&& p.transcript.operator_psk_id == old(relationship).operator_psk_id
                &&& drafted(*m, p.transcript, Kind::Propose, local.self_id)
                &&& proposed(bridge, p.transcript, old(relationship).operator_psk@, p.candidate)
            }
        },
{
    let sequence = relationship.sequence;
    relationship.sequence = sequence.next()?;
    let exchange_id = random::<16, R>(rng)?;
    let remote = relationship.remote;
    let hybrid_public = HybridPublic {
        kem: remote.pq_kem_public_key.0,
        x448: remote.pq_x448_public_key.0,
    };
    let encapsulated = encapsulate(&hybrid_public, bridge);
    let (raw_ciphertext, shared) = encapsulated?;
    let transcript = Transcript {
        network_id: local.network_id,
        initiator_id: local.self_id,
        responder_id: local.other,
        initiator: local.bundle,
        responder: remote,
        sequence: sequence,
        exchange_id: Binary(exchange_id.0),
        operator_psk_id: relationship.operator_psk_id,
        ciphertext: Binary(raw_ciphertext),
    };
    let encoded = transcript.encode();
    let derivation = crate::crypto::derive(
        &shared.kem,
        &shared.x448,
        &relationship.operator_psk.0,
        encoded.as_slice(),
        bridge,
    );
    let candidate = derivation?;
    let secrets = CandidateSecrets::from(candidate);
    proof {
        assert(hybrid_public == responder_key(transcript));
        assert(held(secrets) == candidate);
        assert(call_ensures(
            B::hybrid_encapsulate,
            (bridge, &responder_key(transcript)),
            Ok::<([u8; 1624], HybridShared), Error>((transcript.ciphertext.0, shared)),
        ));
    }
    let message = Message::signed(
        &transcript,
        Kind::Propose,
        local.self_id,
        &candidate,
        &local.signing,
        bridge,
    )?;
    let mut outbox: Vec<Message> = Vec::new();
    outbox.push(message);
    relationship.pending = Some(
        Pending {
            transcript: transcript,
            candidate: secrets,
            decision: Decision::new(),
            outbox: outbox,
            installation_intent: false,
            installed: false,
            confirmed: false,
            attempts: 0,
            next_retry_at: 0,
        },
    );
    Ok(Action::Send(Box::new(message)))
}

/// Whether the server's record holds a proposal this responder answers: a
/// proposed exchange whose transcript names this network, the pair in
/// order, the remote's cached bundle and this endpoint's own bundle.
spec fn answerable(local: Local, relationship: Relationship, remote: Option<&Exchange>) -> bool {
    &&& remote is Some
    &&& remote->0.decision.phase == Phase::Proposed
    &&& remote->0.transcript matches Some(t) && {
        &&& t.network_id == local.network_id
        &&& t.initiator_id@ == local.other@
        &&& t.responder_id@ == local.self_id@
        &&& t.initiator == relationship.remote
        &&& t.responder == local.bundle
    }
}

/// Whether `messages` holds a proposal sent by `other`.
spec fn has_proposal(messages: Seq<Message>, other: Number) -> bool {
    exists|i: int|
        0 <= i < messages.len() && (#[trigger] messages[i]).sender_id@ == other@
            && messages[i].message_type == 1
}

fn start_responder<B: Bridge>(
    local: &Local,
    relationship: &mut Relationship,
    remote: Option<&Exchange>,
    bridge: &B,
) -> (r: Result<Action, Error>)
    requires
        old(relationship).pending is None,
        !local.initiator,
    ensures
        !(r matches Ok(Action::Send(_))) ==> *final(relationship) == *old(relationship),
        r matches Ok(Action::Send(m)) ==> {
            &&& *final(relationship) == (Relationship { pending: final(relationship).pending, ..*old(relationship) })
            &&& remote is Some
            &&& remote->0.transcript == Some(final(relationship).pending->0.transcript)
            &&& remote->0.decision.phase == Phase::Proposed
            &&& final(relationship).pending matches Some(p) && {
                &&& started(p, *m, p.decision)
                &&& p.decision.phase == Phase::Ready
                &&& p.transcript.network_id == local.network_id
                &&& p.transcript.initiator_id@ == local.other@
                &&& p.transcript.responder_id@ == local.self_id@
                &&& p.transcript.initiator == old(relationship).remote
                &&& p.transcript.responder == local.bundle
                &&& drafted(*m, p.transcript, Kind::Ready, local.self_id)
                &&& answered(
                    bridge,
                    p.transcript,
                    local.hybrid,
                    old(relationship).operator_psk@,
                    p.candidate,
                )
            }
        },
        r is Ok ==> r matches Ok(Action::Send(_)) || r == Ok::<Action, Error>(Action::Idle),
        // Anything but an answerable proposal is left alone.
        !answerable(*local, *old(relationship), remote) ==> r == Ok::<Action, Error>(Action::Idle),
        answerable(*local, *old(relationship), remote) ==> r != Ok::<Action, Error>(Action::Idle),
        // A record without the initiator's proposal message is refused.
        answerable(*local, *old(relationship), remote) && !has_proposal(
            remote->0.messages@,
            local.other,
        ) ==> r is Err,
{
    let exchange = match remote {
        Some(e) => e,
        None => return Ok(Action::Idle),
    };
    if exchange.decision.phase != Phase::Proposed {
        return Ok(Action::Idle);
    }
    let transcript = match &exchange.transcript {
        Some(t) => *t,
        None => return Ok(Action::Idle),
    };
    if !crate::protocol::same_bytes(&transcript.network_id.0, &local.network_id.0)
        || transcript.initiator_id.get() != local.other.get() || transcript.responder_id.get()
        != local.self_id.get() || !transcript.initiator.same(&relationship.remote)
        || !transcript.responder.same(&local.bundle) {
        // A stale or mismatched proposal under a superseded bundle.
        return Ok(Action::Idle);
    }
    let decapsulated = bridge.hybrid_decapsulate(&transcript.ciphertext.0, &local.hybrid);
    let shared = decapsulated?;
    let encoded = transcript.encode();
    let derivation = crate::crypto::derive(
        &shared.kem,
        &shared.x448,
        &relationship.operator_psk.0,
        encoded.as_slice(),
        bridge,
    );
    let candidate = derivation?;
    let secrets = CandidateSecrets::from(candidate);
    proof {
        assert(held(secrets) == candidate);
        assert(answered(bridge, transcript, local.hybrid, relationship.operator_psk@, secrets));
    }
    // The proposal carries the initiator's confirmation tag: verify it
    // before trusting this candidate.
    let mut found: Option<Message> = None;
    let mut i: usize = 0;
    while i < exchange.messages.len()
        invariant
            i <= exchange.messages@.len(),
            found is None ==> forall|j: int|
                0 <= j < i ==> !((#[trigger] exchange.messages@[j]).sender_id@ == local.other@
                    && exchange.messages@[j].message_type == 1),
            found is Some ==> has_proposal(exchange.messages@, local.other),
        ensures
            found is None ==> !has_proposal(exchange.messages@, local.other),
            found is Some ==> has_proposal(exchange.messages@, local.other),
        decreases exchange.messages@.len() - i,
    {
        let m = &exchange.messages[i];
        if m.sender_id.get() == local.other.get() && m.message_type == 1u8 {
            assert(exchange.messages@[i as int].sender_id@ == local.other@);
            found = Some(*m);
            break;
        }
        i += 1;
    }
    let propose = match found {
        Some(m) => m,
        None => return Err(Error::Invalid),
    };
    propose.authenticate(&transcript, bridge)?;
    propose.confirm(&candidate, bridge)?;
    let mut decision = Decision::new();
    decision.advance(Kind::Ready, false)?;
    let message = Message::signed(
        &transcript,
        Kind::Ready,
        local.self_id,
        &candidate,
        &local.signing,
        bridge,
    )?;
    let mut outbox: Vec<Message> = Vec::new();
    outbox.push(message);
    relationship.pending = Some(
        Pending {
            transcript: transcript,
            candidate: secrets,
            decision: decision,
            outbox: outbox,
            installation_intent: false,
            installed: false,
            confirmed: false,
            attempts: 0,
            next_retry_at: 0,
        },
    );
    Ok(Action::Send(Box::new(message)))
}

/// The outcome of driving an exchange in progress one step.
enum Step {
    Act(Action),
    Abort,
    Finish(Confirmed),
}

/// A message this endpoint queued for transcript `t`: well-shaped, bound
/// to `t` and sent by `self_id`.
pub open spec fn queued_for(m: Message, t: Transcript, self_id: Number) -> bool {
    &&& shape(m) is Ok
    &&& ids_bound(m, t)
    &&& payload_bound(m, t)
    &&& m.sender_id == self_id
}

pub open spec fn all_queued_for(outbox: Seq<Message>, t: Transcript, self_id: Number) -> bool {
    forall|i: int| 0 <= i < outbox.len() ==> queued_for(#[trigger] outbox[i], t, self_id)
}

/// `b` is `a`, or `a` with one more message at the end.
pub open spec fn extends_by_at_most_one(a: Seq<Message>, b: Seq<Message>) -> bool {
    &&& b.len() == a.len() || b.len() == a.len() + 1
    &&& b.subrange(0, a.len() as int) =~= a
}

/// A decision's phase and the two sides' install and confirmation flags.
pub open spec fn decision_parts(d: Decision) -> (Phase, Seq<bool>, Seq<bool>) {
    (d.phase, d.installed@, d.confirmed@)
}

/// A decision with the given parts.
pub open spec fn with_parts(p: (Phase, Seq<bool>, Seq<bool>)) -> Decision {
    choose|d: Decision| decision_parts(d) == p
}

/// The decision parts after folding `messages` into `p`: each message from
/// `other` that is well-shaped and a legal next step is applied in order;
/// every other message is passed over. `initiator` is the initiator's
/// identifier.
pub open spec fn folded(
    p: (Phase, Seq<bool>, Seq<bool>),
    messages: Seq<Message>,
    other: u64,
    initiator: u64,
) -> (Phase, Seq<bool>, Seq<bool>)
    decreases messages.len(),
{
    if messages.len() == 0 {
        p
    } else {
        let prev = folded(p, messages.drop_last(), other, initiator);
        let m = messages.last();
        if m.sender_id@ != other {
            prev
        } else {
            match shape(m) {
                Ok(kind) => {
                    let d = with_parts(prev);
                    let by_initiator = m.sender_id@ == initiator;
                    if crate::protocol::may_advance(d, kind, by_initiator) {
                        (
                            crate::protocol::phase_after(d, kind, by_initiator),
                            crate::protocol::installed_after(d, kind, by_initiator),
                            crate::protocol::confirmed_after(d, kind, by_initiator),
                        )
                    } else {
                        prev
                    }
                },
                Err(_) => prev,
            }
        }
    }
}

/// Nothing in `messages` moves decision `d`: every message from `other` is
/// well-shaped and not a legal next step.
pub open spec fn nothing_to_fold(d: Decision, messages: Seq<Message>, other: u64, initiator: u64) -> bool {
    forall|i: int|
        0 <= i < messages.len() && (#[trigger] messages[i]).sender_id@ == other ==> {
            &&& shape(messages[i]) is Ok
            &&& !crate::protocol::may_advance(
                d,
                shape(messages[i])->Ok_0,
                messages[i].sender_id@ == initiator,
            )
        }
}

/// The bridge accepted `m` for transcript `t` and candidate `c`: it hashed
/// the transcript to the message's transcript hash, accepted the signature
/// under the signer's key, and its HMAC under the sender's confirmation key
/// is the message's tag.
pub open spec fn accepted_by<B: Bridge>(bridge: &B, m: Message, t: Transcript, c: Candidate) -> bool {
    &&& hashes_to(bridge, transcript_bytes(t), Ok(m.transcript_hash.0))
    &&& verifies_to(
        bridge,
        signer(m, t).pq_sig_public_key@,
        m.signature@,
        envelope_bytes(m) + m.tag@,
        Ok(()),
    )
    &&& tags_to(bridge, sender_confirmation(m, c)@, envelope_bytes(m), Ok(m.tag.0))
}

/// Whether message `i` of `messages` is a step from `other` that is legal
/// once the ones before it are folded into `p`.
pub open spec fn legal_step_at(
    p: (Phase, Seq<bool>, Seq<bool>),
    messages: Seq<Message>,
    i: int,
    other: u64,
    initiator: u64,
) -> bool {
    &&& messages[i].sender_id@ == other
    &&& shape(messages[i]) is Ok
    &&& crate::protocol::may_advance(
        with_parts(folded(p, messages.subrange(0, i), other, initiator)),
        shape(messages[i])->Ok_0,
        messages[i].sender_id@ == initiator,
    )
}

/// Every step from `other` that the server's record of the exchange in
/// progress `p` offers, and that is legal in turn, was accepted by the
/// bridge (a terminal record adopted as it stands aside).
pub open spec fn folds_only_accepted<B: Bridge>(bridge: &B, p: Pending, remote: Option<Exchange>, other: u64) -> bool {
    (remote is Some && remote->0.exchange_id == p.transcript.exchange_id && remote->0.sequence@
        == p.transcript.sequence@ && !(is_terminal(remote->0.decision.phase) && !is_terminal(
        p.decision.phase,
    ))) ==> forall|i: int|
        0 <= i < remote->0.messages@.len() && #[trigger] legal_step_at(
            decision_parts(p.decision),
            remote->0.messages@,
            i,
            other,
            p.transcript.initiator_id@,
        ) ==> accepted_by(bridge, remote->0.messages@[i], p.transcript, held(p.candidate))
}

/// Folds the peer's messages in the server's record into the local
/// decision: each one that is a legal next step is authenticated and
/// confirmed before the step is taken; the rest are ignored.
fn fold_remote<B: Bridge>(local: &Local, pending: &mut Pending, exchange: &Exchange, bridge: &B) -> (r:
    Result<(), Error>)
    ensures
        *final(pending) == (Pending { decision: final(pending).decision, ..*old(pending) }),
        // Every legal step from the peer was authenticated and taken.
        r is Ok ==> decision_parts(final(pending).decision) == folded(
            decision_parts(old(pending).decision),
            exchange.messages@,
            local.other@,
            old(pending).transcript.initiator_id@,
        ),
        // A record with nothing from the peer changes nothing.
        (forall|i: int|
            0 <= i < exchange.messages@.len() ==> (#[trigger] exchange.messages@[i]).sender_id@
                != local.other@) ==> r == Ok::<(), Error>(()) && *final(pending) == *old(pending),
        // A record with no legal next step from the peer changes nothing.
        nothing_to_fold(
            old(pending).decision,
            exchange.messages@,
            local.other@,
            old(pending).transcript.initiator_id@,
        ) ==> r == Ok::<(), Error>(()) && *final(pending) == *old(pending),
        // Each step taken was accepted by the bridge first.
        r is Ok ==> forall|i: int|
            0 <= i < exchange.messages@.len() && #[trigger] legal_step_at(
                decision_parts(old(pending).decision),
                exchange.messages@,
                i,
                local.other@,
                old(pending).transcript.initiator_id@,
            ) ==> accepted_by(
                bridge,
                exchange.messages@[i],
                old(pending).transcript,
                held(old(pending).candidate),
            ),
{
    let ghost start = decision_parts(pending.decision);
    let ghost other = local.other@;
    let ghost init_id = pending.transcript.initiator_id@;
    let mut i: usize = 0;
    while i < exchange.messages.len()
        invariant
            i <= exchange.messages@.len(),
            *pending == (Pending { decision: pending.decision, ..*old(pending) }),
            start == decision_parts(old(pending).decision),
            other == local.other@,
            init_id == old(pending).transcript.initiator_id@,
            decision_parts(pending.decision) == folded(
                start,
                exchange.messages@.subrange(0, i as int),
                other,
                init_id,
            ),
            (forall|j: int|
                0 <= j < exchange.messages@.len() ==> (#[trigger] exchange.messages@[j]).sender_id@
                    != other) ==> *pending == *old(pending),
            nothing_to_fold(old(pending).decision, exchange.messages@, other, init_id) ==> *pending
                == *old(pending),
            forall|j: int|
                0 <= j < i && #[trigger] legal_step_at(start, exchange.messages@, j, other, init_id)
                    ==> accepted_by(
                    bridge,
                    exchange.messages@[j],
                    old(pending).transcript,
                    held(old(pending).candidate),
                ),
        decreases exchange.messages@.len() - i,
    {
        let ghost before = decision_parts(pending.decision);
        let message = &exchange.messages[i];
        proof {
            let next = exchange.messages@.subrange(0, i + 1);
            assert(next.drop_last() =~= exchange.messages@.subrange(0, i as int));
            assert(next.last() == exchange.messages@[i as int]);
            assert(decision_parts(with_parts(before)) == before);
        }
        if message.sender_id.get() == local.other.get() {
            let kind = message.validate_shape()?;
            let sender_is_initiator = message.sender_id.get()
                == pending.transcript.initiator_id.get();
            let mut trial = pending.decision;
            if trial.advance(kind, sender_is_initiator).is_ok() {
                message.authenticate(&pending.transcript, bridge)?;
                let candidate = pending.candidate.candidate();
                message.confirm(&candidate, bridge)?;
                proof {
                    assert(candidate == held(old(pending).candidate));
                    assert(accepted_by(bridge, *message, old(pending).transcript, candidate));
                }
                pending.decision = trial;
            }
        }
        i += 1;
    }
    proof {
        assert(exchange.messages@.subrange(0, i as int) =~= exchange.messages@);
    }
    Ok(())
}

/// Queues `message` and asks for it to be sent.
fn queue(pending: &mut Pending, message: Message) -> (r: Step)
    ensures
        *final(pending) == (Pending { outbox: final(pending).outbox, ..*old(pending) }),
        final(pending).outbox@ == old(pending).outbox@.push(message),
        r == (Step::Act(Action::Send(Box::new(message)))),
{
    pending.outbox.push(message);
    Step::Act(Action::Send(Box::new(message)))
}

/// Whether `remote` is the server's record of the exchange in progress.
pub open spec fn records_exchange(remote: Option<&Exchange>, pending: Pending) -> bool {
    &&& remote is Some
    &&& remote->0.exchange_id == pending.transcript.exchange_id
    &&& remote->0.sequence@ == pending.transcript.sequence@
}

fn pending_step<I: Installer, B: Bridge>(
    local: &Local,
    pending: &mut Pending,
    remote_bundle: &Bundle,
    remote: Option<&Exchange>,
    now: u64,
    installer: &mut I,
    bridge: &B,
) -> (r: Result<Step, Error>)
    ensures
        final(pending).transcript == old(pending).transcript,
        final(pending).candidate == old(pending).candidate,
        extends_by_at_most_one(old(pending).outbox@, final(pending).outbox@),
        all_queued_for(old(pending).outbox@, old(pending).transcript, local.self_id)
            ==> all_queued_for(final(pending).outbox@, old(pending).transcript, local.self_id),
        old(pending).installed ==> final(pending).installed,
        old(pending).confirmed ==> final(pending).confirmed,
        // The candidate is installed only once committed, and by the
        // initiator only after the responder's install receipt.
        !old(pending).installed && final(pending).installed ==> {
            &&& final(pending).decision.phase == Phase::Committed
            &&& local.initiator ==> final(pending).decision.installed[1]
        },
        // A fresh handshake is reported only after the local install.
        !old(pending).confirmed && final(pending).confirmed ==> final(pending).installed,
        // The one install is this step's, of the candidate PSK for the
        // remote bundle; every other step installs nothing.
        final(installer).installs() == if !old(pending).installed && final(pending).installed {
            old(installer).installs().push((remote_bundle.bundle_id@, old(pending).candidate.psk@))
        } else {
            old(installer).installs()
        },
        r matches Ok(Step::Act(a)) ==> !(a is Complete),
        r matches Ok(Step::Act(Action::Send(m))) ==> final(pending).outbox@.len() > 0 && *m
            == final(pending).outbox@.last(),
        r matches Ok(Step::Abort) ==> final(pending).decision.phase == Phase::Aborted,
        r matches Ok(Step::Finish(c)) ==> {
            &&& final(pending).decision.phase == Phase::Complete
            &&& c.sequence == old(pending).transcript.sequence
            &&& c.exchange_id == old(pending).transcript.exchange_id
            &&& c.psk == old(pending).candidate.psk
            &&& c.completed_at == now
            &&& c.local_bundle_id == local.bundle.bundle_id
            &&& c.remote_bundle_id == remote_bundle.bundle_id
            &&& hashes_to(
                bridge,
                transcript_bytes(old(pending).transcript),
                Ok(c.transcript_hash.0),
            )
        },
        // Without the server's record of this exchange nothing is folded:
        // the last queued message is sent again, an aborted exchange ends,
        // and a proposal with nothing queued waits.
        !records_exchange(remote, *old(pending)) && old(pending).decision.phase != Phase::Aborted
            && old(pending).outbox@.len() > 0 ==> *final(pending) == *old(pending) && (r matches Ok(
            Step::Act(Action::Send(m)),
        ) && *m == old(pending).outbox@.last()),
        !records_exchange(remote, *old(pending)) && old(pending).decision.phase == Phase::Aborted
            ==> *final(pending) == *old(pending) && r matches Ok(Step::Abort),
        // A record of this exchange that moves nothing and lacks this
        // side's last message gets that message again, unchanged.
        records_exchange(remote, *old(pending)) && !(is_terminal(remote->0.decision.phase)
            && !is_terminal(old(pending).decision.phase)) && nothing_to_fold(
            old(pending).decision,
            remote->0.messages@,
            local.other@,
            old(pending).transcript.initiator_id@,
        ) && old(pending).decision.phase != Phase::Aborted && old(pending).outbox@.len() > 0
            && !sent_durably(Some(*remote->0), *old(pending), local.self_id) ==> *final(pending)
            == *old(pending) && (r matches Ok(Step::Act(Action::Send(m))) && *m == old(
            pending,
        ).outbox@.last()),
        // An exchange complete here whose record holds this side's last
        // message and nothing more to fold finishes, unless the bridge's
        // transcript hash fails; the installer is not called.
        old(pending).decision.phase == Phase::Complete && records_exchange(remote, *old(pending))
            && nothing_to_fold(
            old(pending).decision,
            remote->0.messages@,
            local.other@,
            old(pending).transcript.initiator_id@,
        ) && sent_durably(Some(*remote->0), *old(pending), local.self_id) ==> {
            &&& *final(installer) == *old(installer)
            &&& (r is Err || (r matches Ok(Step::Finish(_))))
            &&& r matches Err(e) ==> hashes_to(
                bridge,
                transcript_bytes(old(pending).transcript),
                Err(e),
            )
        },
        // A terminal record of this exchange settles an open local
        // decision: an aborted one aborts, a complete one can only finish.
        records_exchange(remote, *old(pending)) && is_terminal(remote->0.decision.phase)
            && !is_terminal(old(pending).decision.phase) ==> {
            &&& final(pending).decision == remote->0.decision
            &&& *final(installer) == *old(installer)
            &&& remote->0.decision.phase == Phase::Aborted ==> (r matches Ok(Step::Abort))
            &&& remote->0.decision.phase == Phase::Complete ==> (r is Err || (r matches Ok(
                Step::Finish(_),
            )))
            &&& remote->0.decision.phase == Phase::Complete ==> (r matches Err(e) ==> hashes_to(
                bridge,
                transcript_bytes(old(pending).transcript),
                Err(e),
            ))
        },
        !records_exchange(remote, *old(pending)) && old(pending).decision.phase == Phase::Proposed
            && old(pending).outbox@.len() == 0 ==> *final(pending) == *old(pending) && r matches Ok(
            Step::Act(Action::Idle),
        ),
        r is Ok ==> folds_only_accepted(
            bridge,
            *old(pending),
            match remote {
                Some(e) => Some(*e),
                None => None,
            },
            local.other@,
        ),
{
    if let Some(exchange) = remote {
        if crate::protocol::same_bytes(&exchange.exchange_id.0, &pending.transcript.exchange_id.0)
            && exchange.sequence.get() == pending.transcript.sequence.get() {
            if exchange.decision.terminal() && !pending.decision.terminal() {
                // A terminal record may already be compacted; every step
                // before it was signature-verified by the server running
                // the same transition model, so its decision is the
                // authoritative outcome.
                pending.decision = exchange.decision;
            } else {
                fold_remote(local, pending, exchange, bridge)?;
            }
        }
    }
    // Re-send until the server's own record shows receipt, even when the
    // local decision already looks terminal.
    let outstanding = pending.outbox.len();
    if pending.decision.phase != Phase::Aborted && !durably_sent(remote, pending, local.self_id)
        && outstanding > 0 {
        let last = pending.outbox[outstanding - 1];
        return Ok(Step::Act(Action::Send(Box::new(last))));
    }
    let self_is_initiator = local.self_id.get() == pending.transcript.initiator_id.get();
    match pending.decision.phase {
        Phase::Aborted => Ok(Step::Abort),
        Phase::Proposed => Ok(Step::Act(Action::Idle)),
        Phase::Ready => {
            if local.initiator {
                let candidate = pending.candidate.candidate();
                let message = Message::signed(
                    &pending.transcript,
                    Kind::Commit,
                    local.self_id,
                    &candidate,
                    &local.signing,
                    bridge,
                )?;
                pending.decision.advance(Kind::Commit, true)?;
                Ok(queue(pending, message))
            } else {
                Ok(Step::Act(Action::Idle))
            }
        },
        Phase::Committed => {
            if !pending.installed {
                if !local.initiator || pending.decision.installed[1] {
                    let candidate = pending.candidate.candidate();
                    match installer.install(remote_bundle, &candidate) {
                        Ok(()) => {},
                        Err(_) => return Err(Error::Installer),
                    }
                    pending.installed = true;
                    let message = Message::signed(
                        &pending.transcript,
                        Kind::Installed,
                        local.self_id,
                        &candidate,
                        &local.signing,
                        bridge,
                    )?;
                    pending.decision.advance(Kind::Installed, self_is_initiator)?;
                    return Ok(queue(pending, message));
                }
                // The initiator waits for the responder's install receipt.
                return Ok(Step::Act(Action::Idle));
            }
            if !pending.confirmed {
                let fresh = match installer.handshake_fresh(remote_bundle) {
                    Ok(b) => b,
                    Err(_) => return Err(Error::Installer),
                };
                if fresh {
                    pending.confirmed = true;
                    let candidate = pending.candidate.candidate();
                    let message = Message::signed(
                        &pending.transcript,
                        Kind::Confirmed,
                        local.self_id,
                        &candidate,
                        &local.signing,
                        bridge,
                    )?;
                    pending.decision.advance(Kind::Confirmed, self_is_initiator)?;
                    return Ok(queue(pending, message));
                }
                return Ok(Step::Act(Action::Idle));
            }
            // Both done locally; waiting for the peer and the server.
            Ok(Step::Act(Action::Idle))
        },
        Phase::Complete => {
            let encoded = pending.transcript.encode();
            let hashed = bridge.hash(encoded.as_slice());
            assert(hashes_to(bridge, transcript_bytes(pending.transcript), hashed));
            let digest = hashed?;
            Ok(
                Step::Finish(
                    Confirmed {
                        local_bundle_id: local.bundle.bundle_id,
                        remote_bundle_id: remote_bundle.bundle_id,
                        sequence: pending.transcript.sequence,
                        exchange_id: pending.transcript.exchange_id,
                        transcript_hash: Binary(digest),
                        psk: pending.candidate.psk,
                        completed_at: now,
                    },
                ),
            )
        },
    }
}

fn due(confirmed: &Option<Confirmed>, now: u64, interval: u64) -> (r: bool)
    ensures
        r == rotation_due(*confirmed, now, interval),
{
    match confirmed {
        None => true,
        Some(c) => now.saturating_sub(c.completed_at) >= interval,
    }
}

/// Feeding the same snapshot twice while the server's record lacks this
/// side's last message and holds no legal next step from the peer is a
/// safe repetition: both steps send that same message and leave the
/// relationship as it was.
pub proof fn lemma_resending_is_idempotent(
    o: Relationship,
    f1: Relationship,
    r1: Result<Action, Error>,
    f2: Relationship,
    r2: Result<Action, Error>,
    local_initiator: bool,
    self_id: Number,
    now: u64,
    interval: u64,
    context: (Binary<16>, u64, Bundle),
    remote: Option<Exchange>,
)
    requires
        reconciled(o, f1, r1, local_initiator, self_id, now, interval, context, remote),
        reconciled(f1, f2, r2, local_initiator, self_id, now, interval, context, remote),
        !(o.gated || o.status == Status::Blocked),
        o.pending is Some,
        remote is Some,
        remote->0.exchange_id == o.pending->0.transcript.exchange_id,
        remote->0.sequence@ == o.pending->0.transcript.sequence@,
        !(is_terminal(remote->0.decision.phase) && !is_terminal(o.pending->0.decision.phase)),
        nothing_to_fold(
            o.pending->0.decision,
            remote->0.messages@,
            context.1,
            o.pending->0.transcript.initiator_id@,
        ),
        o.pending->0.decision.phase != Phase::Aborted,
        o.pending->0.outbox@.len() > 0,
        !sent_durably(remote, o.pending->0, self_id),
    ensures
        f1 == o,
        f2 == o,
        r1 == r2,
        r1 matches Ok(Action::Send(m)) && *m == o.pending->0.outbox@.last(),
{
    assert(resent_to_record(o, f1, r1, remote, context.1, self_id));
    assert(f1 == o);
    assert(resent_to_record(f1, f2, r2, remote, context.1, self_id));
}

/// Replaying the snapshot that a sending step (a Commit, say) was taken on
/// is safe while the server's record still lacks the message sent and
/// holds no legal next step from the peer: the replay sends the same
/// message again and changes nothing.
pub proof fn lemma_replaying_a_sending_step_resends(
    o: Relationship,
    f1: Relationship,
    r1: Result<Action, Error>,
    f2: Relationship,
    r2: Result<Action, Error>,
    local_initiator: bool,
    self_id: Number,
    now: u64,
    interval: u64,
    context: (Binary<16>, u64, Bundle),
    remote: Option<Exchange>,
)
    requires
        reconciled(o, f1, r1, local_initiator, self_id, now, interval, context, remote),
        reconciled(f1, f2, r2, local_initiator, self_id, now, interval, context, remote),
        r1 matches Ok(Action::Send(_)),
        f1.pending is Some,
        remote is Some,
        remote->0.exchange_id == f1.pending->0.transcript.exchange_id,
        remote->0.sequence@ == f1.pending->0.transcript.sequence@,
        !(is_terminal(remote->0.decision.phase) && !is_terminal(f1.pending->0.decision.phase)),
        nothing_to_fold(
            f1.pending->0.decision,
            remote->0.messages@,
            context.1,
            f1.pending->0.transcript.initiator_id@,
        ),
        f1.pending->0.decision.phase != Phase::Aborted,
        !sent_durably(remote, f1.pending->0, self_id),
    ensures
        f2 == f1,
        r2 == r1,
{
    assert(!(f1.gated || f1.status == Status::Blocked));
    assert(resent_to_record(f1, f2, r2, remote, context.1, self_id));
}

/// Whether the server's record `remote` is a terminal record of the open
/// exchange in progress on `o`, which settles it.
pub open spec fn record_settles(o: Relationship, remote: Option<Exchange>) -> bool {
    &&& !(o.gated || o.status == Status::Blocked)
    &&& o.pending is Some
    &&& remote is Some
    &&& remote->0.exchange_id == o.pending->0.transcript.exchange_id
    &&& remote->0.sequence@ == o.pending->0.transcript.sequence@
    &&& !is_terminal(o.pending->0.decision.phase)
    &&& is_terminal(remote->0.decision.phase)
}

/// The server's record of the exchange in progress settles it on its own:
/// an aborted (or expired) record drops the exchange and keeps the
/// confirmed key; a complete record can only complete it.
pub open spec fn settled_by_record(
    o: Relationship,
    f: Relationship,
    r: Result<Action, Error>,
    remote: Option<Exchange>,
) -> bool {
    (!(o.gated || o.status == Status::Blocked) && o.pending is Some && remote is Some
        && remote->0.exchange_id == o.pending->0.transcript.exchange_id
        && remote->0.sequence@ == o.pending->0.transcript.sequence@ && !is_terminal(
        o.pending->0.decision.phase,
    )) ==> {
        &&& remote->0.decision.phase == Phase::Aborted ==> r == Ok::<Action, Error>(Action::Idle)
            && f.pending is None && f.confirmed == o.confirmed
        &&& remote->0.decision.phase == Phase::Complete ==> (r is Err || r == Ok::<Action, Error>(
            Action::Complete,
        ))
    }
}

/// Without the server's record of the exchange in progress, the last
/// queued message is sent again unchanged, and a locally aborted exchange
/// is dropped keeping the confirmed key.
pub open spec fn resent_or_dropped(
    o: Relationship,
    f: Relationship,
    r: Result<Action, Error>,
    remote: Option<Exchange>,
) -> bool {
    (!(o.gated || o.status == Status::Blocked) && o.pending is Some && !(remote is Some
        && remote->0.exchange_id == o.pending->0.transcript.exchange_id && remote->0.sequence@
        == o.pending->0.transcript.sequence@)) ==> {
        &&& (o.pending->0.decision.phase != Phase::Aborted && o.pending->0.outbox@.len() > 0)
            ==> f == o && (r matches Ok(Action::Send(m)) && *m == o.pending->0.outbox@.last())
        &&& o.pending->0.decision.phase == Phase::Aborted ==> r == Ok::<Action, Error>(
            Action::Idle,
        ) && f.pending is None && f.confirmed == o.confirmed
    }
}

/// With the server's record of the exchange in progress holding no legal
/// next step from the peer but not yet this side's last message, a step
/// sends that message again and changes nothing, however often it is
/// repeated.
pub open spec fn resent_to_record(
    o: Relationship,
    f: Relationship,
    r: Result<Action, Error>,
    remote: Option<Exchange>,
    other: u64,
    self_id: Number,
) -> bool {
    (!(o.gated || o.status == Status::Blocked) && o.pending is Some && remote is Some
        && remote->0.exchange_id == o.pending->0.transcript.exchange_id && remote->0.sequence@
        == o.pending->0.transcript.sequence@ && !(is_terminal(remote->0.decision.phase)
        && !is_terminal(o.pending->0.decision.phase)) && nothing_to_fold(
        o.pending->0.decision,
        remote->0.messages@,
        other,
        o.pending->0.transcript.initiator_id@,
    ) && o.pending->0.decision.phase != Phase::Aborted && o.pending->0.outbox@.len() > 0
        && !sent_durably(remote, o.pending->0, self_id)) ==> f == o && (r matches Ok(
        Action::Send(m),
    ) && *m == o.pending->0.outbox@.last())
}

/// The installer's record after a step from `o` to `f`: the step that
/// installs the exchange's candidate (the pending exchange turns
/// installed) adds the remote bundle ID with the candidate PSK; no other
/// step adds anything.
pub open spec fn installed_by(
    before: Seq<(Seq<u8>, Seq<u8>)>,
    o: Relationship,
    f: Relationship,
) -> Seq<(Seq<u8>, Seq<u8>)> {
    if o.pending is Some && !o.pending->0.installed && f.pending is Some
        && f.pending->0.installed {
        before.push((o.remote.bundle_id@, o.pending->0.candidate.psk@))
    } else {
        before
    }
}

/// Whether a step on this relationship draws no randomness and makes no
/// installer call: it is gated or blocked, or nothing is in progress and
/// this side either responds or is not yet due to propose.
pub open spec fn quiet_step(o: Relationship, local_initiator: bool, now: u64, interval: u64) -> bool {
    ||| o.gated || o.status == Status::Blocked
    ||| o.pending is None && (!local_initiator || !rotation_due(o.confirmed, now, interval))
}

/// What one reconcile step does to one relationship, apart from what the
/// bridge and installer decide: see `EndpointState::reconcile`.
pub open spec fn reconciled(
    o: Relationship,
    f: Relationship,
    r: Result<Action, Error>,
    local_initiator: bool,
    self_id: Number,
    now: u64,
    interval: u64,
    context: (Binary<16>, u64, Bundle),
    remote: Option<Exchange>,
) -> bool {
    let (network_id, other, local_bundle) = context;
    let idle_ok = !(o.gated || o.status == Status::Blocked);
    &&& f.remote == o.remote
    &&& f.gated == o.gated
    &&& f.operator_psk == o.operator_psk
    &&& f.operator_psk_id == o.operator_psk_id
    &&& f.activity == o.activity
    // The sequence never rewinds; it advances only when the initiator
    // starts an exchange.
    &&& f.sequence@ == o.sequence@ || (o.pending is None && local_initiator && f.sequence@
        == o.sequence@ + 1)
    // A gated or blocked relationship is left alone.
    &&& (o.gated || o.status == Status::Blocked) ==> r == Ok::<Action, Error>(Action::Idle) && f
        == o
    // The initiator starts no exchange before a rotation is due.
    &&& (!(o.gated || o.status == Status::Blocked) && o.pending is None && local_initiator
        && !rotation_due(o.confirmed, now, interval)) ==> r == Ok::<Action, Error>(Action::Idle)
        && f == o
    // An exchange in progress keeps its transcript and secrets.
    &&& (o.pending is Some && f.pending is Some) ==> f.pending->0.transcript
        == o.pending->0.transcript && f.pending->0.candidate == o.pending->0.candidate
    // A message to send is the last one queued.
    &&& (r matches Ok(Action::Send(m)) ==> f.pending is Some && f.pending->0.outbox@.len() > 0
        && *m == f.pending->0.outbox@.last())
    // Every message queued is well-shaped, bound to the exchange and sent
    // by this endpoint, as long as that held before.
    &&& (f.pending is Some && (o.pending is None || all_queued_for(
        o.pending->0.outbox@,
        o.pending->0.transcript,
        self_id,
    ))) ==> all_queued_for(f.pending->0.outbox@, f.pending->0.transcript, self_id)
    // Completion records exactly the exchange that was in progress.
    &&& (r == Ok::<Action, Error>(Action::Complete) ==> {
        &&& o.pending is Some
        &&& f.pending is None
        &&& f.prior_pq
        &&& f.status == Status::Confirmed
        &&& f.confirmed is Some
        &&& f.confirmed->0.sequence == o.pending->0.transcript.sequence
        &&& f.confirmed->0.exchange_id == o.pending->0.transcript.exchange_id
        &&& f.confirmed->0.psk == o.pending->0.candidate.psk
        &&& f.confirmed->0.completed_at == now
        &&& f.confirmed->0.remote_bundle_id == o.remote.bundle_id
    })
    // Otherwise the confirmed key, status and history stay.
    &&& (r != Ok::<Action, Error>(Action::Complete) ==> f.confirmed == o.confirmed && f.status
        == o.status && f.prior_pq == o.prior_pq)
    &&& (r == Ok::<Action, Error>(Action::Complete) ==> f.confirmed->0.local_bundle_id
        == local_bundle.bundle_id)
    // A due initiator proposes: the transcript pins this network, the
    // pair in order, both current bundles and the sequence before the
    // increment; a failed attempt leaves no exchange behind.
    &&& (idle_ok && o.pending is None && local_initiator && rotation_due(o.confirmed, now, interval))
        ==> {
        &&& r is Err ==> f.pending is None
        &&& r is Ok ==> {
            &&& r matches Ok(Action::Send(m))
            &&& f.sequence@ == o.sequence@ + 1
            &&& f.pending matches Some(p) && {
                &&& started(p, *m, p.decision)
                &&& p.decision.phase == Phase::Proposed
                &&& p.transcript.sequence == o.sequence
                &&& p.transcript.initiator_id == self_id
                &&& p.transcript.responder_id@ == other
                &&& p.transcript.initiator == local_bundle
                &&& p.transcript.responder == o.remote
                &&& p.transcript.network_id == network_id
                &&& p.transcript.operator_psk_id == o.operator_psk_id
                &&& drafted(*m, p.transcript, Kind::Propose, self_id)
            }
        }
    }
    // The responder answers only a proposed exchange whose transcript
    // names this network, the pair, the remote's cached bundle and its own
    // current bundle; otherwise nothing changes.
    &&& (idle_ok && o.pending is None && !local_initiator) ==> {
        &&& !(r matches Ok(Action::Send(_))) ==> f == o
        &&& r is Ok ==> (r matches Ok(Action::Send(_)) || r == Ok::<Action, Error>(Action::Idle))
        &&& r matches Ok(Action::Send(m)) ==> {
            &&& remote is Some
            &&& remote->0.transcript == Some(f.pending->0.transcript)
            &&& remote->0.decision.phase == Phase::Proposed
            &&& f.pending matches Some(p) && {
                &&& started(p, *m, p.decision)
                &&& p.decision.phase == Phase::Ready
                &&& p.transcript.network_id == network_id
                &&& p.transcript.initiator_id@ == other
                &&& p.transcript.responder_id@ == self_id@
                &&& p.transcript.initiator == o.remote
                &&& p.transcript.responder == local_bundle
                &&& drafted(*m, p.transcript, Kind::Ready, self_id)
            }
        }
    }
    // An exchange in progress queues at most one more message, never
    // forgets its install or confirmation, installs only once committed
    // (the initiator only after the responder), confirms only after its
    // own install, and ends only by completing or aborting.
    &&& (o.pending is Some && f.pending is Some) ==> {
        let (op, fp) = (o.pending->0, f.pending->0);
        &&& extends_by_at_most_one(op.outbox@, fp.outbox@)
        &&& op.installed ==> fp.installed
        &&& op.confirmed ==> fp.confirmed
        &&& !op.installed && fp.installed ==> fp.decision.phase == Phase::Committed && (
        local_initiator ==> fp.decision.installed[1])
        &&& !op.confirmed && fp.confirmed ==> fp.installed
    }
    &&& (o.pending is Some && f.pending is None) ==> (r == Ok::<Action, Error>(Action::Complete)
        || r == Ok::<Action, Error>(Action::Idle))
    &&& settled_by_record(o, f, r, remote)
    &&& resent_or_dropped(o, f, r, remote)
    &&& resent_to_record(o, f, r, remote, context.1, self_id)
    // An exchange complete here, whose record holds this side's last
    // message and nothing more to fold, completes unless the bridge's hash
    // of the transcript fails.
    &&& (!(o.gated || o.status == Status::Blocked) && o.pending is Some
        && o.pending->0.decision.phase == Phase::Complete && remote is Some
        && remote->0.exchange_id == o.pending->0.transcript.exchange_id && remote->0.sequence@
        == o.pending->0.transcript.sequence@ && nothing_to_fold(
        o.pending->0.decision,
        remote->0.messages@,
        context.1,
        o.pending->0.transcript.initiator_id@,
    ) && sent_durably(remote, o.pending->0, self_id)) ==> (r is Err || r == Ok::<Action, Error>(
        Action::Complete,
    ))
    // A due initiator at the last sequence number cannot propose, and a
    // remote KEM key that fails the modulus check is refused.
    &&& (idle_ok && o.pending is None && local_initiator && rotation_due(o.confirmed, now, interval))
        ==> {
        &&& o.sequence@ == crate::protocol::NUMBER_MAX ==> r == Err::<Action, Error>(Error::Invalid)
            && f == o
        &&& crate::crypto::kem_check(o.remote.pq_kem_public_key@) is Err ==> r is Err
    }
}

/// Whether the exchange in progress on `o` is owed completion this step:
/// the server's record of it is complete while it is still open here, or
/// it is complete here and the record holds this side's last message with
/// nothing more to fold.
pub open spec fn completion_owed(o: Relationship, remote: Option<Exchange>, other: u64, self_id: Number) -> bool {
    &&& !(o.gated || o.status == Status::Blocked)
    &&& o.pending is Some
    &&& remote is Some
    &&& remote->0.exchange_id == o.pending->0.transcript.exchange_id
    &&& remote->0.sequence@ == o.pending->0.transcript.sequence@
    &&& ((!is_terminal(o.pending->0.decision.phase) && remote->0.decision.phase == Phase::Complete)
        || (o.pending->0.decision.phase == Phase::Complete && nothing_to_fold(
        o.pending->0.decision,
        remote->0.messages@,
        other,
        o.pending->0.transcript.initiator_id@,
    ) && sent_durably(remote, o.pending->0, self_id)))
}

/// A completion records the bridge's hash of the exchange's transcript;
/// where completion is owed, the step completes or fails with what that
/// hash gave.
pub open spec fn completion_hashed<B: Bridge>(
    bridge: &B,
    o: Relationship,
    f: Relationship,
    r: Result<Action, Error>,
    owed: bool,
) -> bool {
    &&& r == Ok::<Action, Error>(Action::Complete) ==> hashes_to(
        bridge,
        transcript_bytes(o.pending->0.transcript),
        Ok(f.confirmed->0.transcript_hash.0),
    )
    &&& owed ==> (r == Ok::<Action, Error>(Action::Complete) || (r matches Err(e) && hashes_to(
        bridge,
        transcript_bytes(o.pending->0.transcript),
        Err(e),
    )))
}

fn drive<I: Installer, R: Random, B: Bridge>(
    local: &Local,
    relationship: &mut Relationship,
    remote: Option<&Exchange>,
    now: u64,
    interval: u64,
    installer: &mut I,
    rng: &mut R,
    bridge: &B,
) -> (r: Result<Action, Error>)
    requires
        local.initiator <==> local.self_id@ < local.other@,
    ensures
        reconciled(
            *old(relationship),
            *final(relationship),
            r,
            local.initiator,
            local.self_id,
            now,
            interval,
            (local.network_id, local.other@, local.bundle),
            match remote {
                Some(e) => Some(*e),
                None => None,
            },
        ),
        quiet_step(*old(relationship), local.initiator, now, interval) ==> *final(installer)
            == *old(installer) && *final(rng) == *old(rng),        final(installer).installs() == installed_by(
            old(installer).installs(),
            *old(relationship),
            *final(relationship),
        ),
        record_settles(
            *old(relationship),
            match remote {
                Some(e) => Some(*e),
                None => None,
            },
        ) ==> *final(installer) == *old(installer),
        completion_hashed(
            bridge,
            *old(relationship),
            *final(relationship),
            r,
            completion_owed(
                *old(relationship),
                match remote {
                    Some(e) => Some(*e),
                    None => None,
                },
                local.other@,
                local.self_id,
            ),
        ),
        r is Ok && old(relationship).pending is Some && !(old(relationship).gated || old(
            relationship,
        ).status == Status::Blocked) ==> folds_only_accepted(
            bridge,
            old(relationship).pending->0,
            match remote {
                Some(e) => Some(*e),
                None => None,
            },
            local.other@,
        ),
        old(relationship).pending is None && final(relationship).pending is Some ==> {
            let p = final(relationship).pending->0;
            if local.initiator {
                proposed(bridge, p.transcript, old(relationship).operator_psk@, p.candidate)
            } else {
                answered(bridge, p.transcript, local.hybrid, old(relationship).operator_psk@, p.candidate)
            }
        },
{
    if relationship.gated || relationship.status == Status::Blocked {
        return Ok(Action::Idle);
    }
    if relationship.pending.is_none() {
        if local.initiator {
            if !due(&relationship.confirmed, now, interval) {
                return Ok(Action::Idle);
            }
            return start_initiator(local, relationship, rng, bridge);
        }
        return start_responder(local, relationship, remote, bridge);
    }
    let remote_bundle = relationship.remote;
    let step = match &mut relationship.pending {
        Some(pending) => pending_step(local, pending, &remote_bundle, remote, now, installer, bridge),
        None => return Ok(Action::Idle),
    };
    match step? {
        Step::Act(action) => Ok(action),
        Step::Abort => {
            relationship.pending = None;
            Ok(Action::Idle)
        },
        Step::Finish(confirmed) => {
            relationship.confirmed = Some(confirmed);
            relationship.prior_pq = true;
            relationship.status = Status::Confirmed;
            relationship.pending = None;
            Ok(Action::Complete)
        },
    }
}

impl EndpointState {
    /// Advances the relationship with data peer `other` by exactly the
    /// durable steps that are ready this cycle, given the server's record
    /// `remote` of the current exchange. The caller must persist this state
    /// before acting on the returned `Action`.
    pub fn reconcile<I: Installer, R: Random, B: Bridge>(
        &mut self,
        other: Number,
        remote: Option<&Exchange>,
        now: u64,
        rotation_interval: u64,
        installer: &mut I,
        rng: &mut R,
        bridge: &B,
    ) -> (r: Result<Action, Error>)
        ensures
            other@ == old(self).peer_id@ || other@ == old(self).server_id@
                || !old(self).relationships@.contains_key(other@) ==> r == Err::<Action, Error>(
                Error::Invalid,
            ) && final(self).relationships@ == old(self).relationships@,
            crate::state::only_relationships_changed(*old(self), *final(self)),
            old(self).relationships@.contains_key(other@) ==> {
                &&& final(self).relationships@.dom() == old(self).relationships@.dom()
                &&& final(self).relationships@ == old(self).relationships@.insert(
                    other@,
                    final(self).relationships@[other@],
                )
            },
            other@ != old(self).peer_id@ && other@ != old(self).server_id@ && old(self).relationships@.contains_key(other@) ==> reconciled(
                old(self).relationships@[other@],
                final(self).relationships@[other@],
                r,
                old(self).peer_id@ < other@,
                old(self).peer_id,
                now,
                rotation_interval,
                (old(self).network_id, other@, old(self).identity.bundle),
                match remote {
                    Some(e) => Some(*e),
                    None => None,
                },
            ),
            // Refused, gated, blocked, responding or not yet due: no
            // randomness is drawn and the installer is not called.
            other@ == old(self).peer_id@ || other@ == old(self).server_id@
                || !old(self).relationships@.contains_key(other@) || quiet_step(
                old(self).relationships@[other@],
                old(self).peer_id@ < other@,
                now,
                rotation_interval,
            ) ==> *final(installer) == *old(installer) && *final(rng) == *old(rng),
            // Only the committed install step installs, and what it installs
            // is the pending candidate's PSK for the peer's bundle.
            // A completed, aborted or expired server record is adopted
            // without calling the installer.
            old(self).relationships@.contains_key(other@) && other@ != old(self).peer_id@ && other@
                != old(self).server_id@ && record_settles(
                old(self).relationships@[other@],
                match remote {
                    Some(e) => Some(*e),
                    None => None,
                },
            ) ==> *final(installer) == *old(installer),
            old(self).relationships@.contains_key(other@) ==> final(installer).installs()
                == installed_by(
                old(installer).installs(),
                old(self).relationships@[other@],
                final(self).relationships@[other@],
            ),
            // A completion records the bridge's hash of the transcript; an
            // exchange owed completion completes unless that hash failed.
            old(self).relationships@.contains_key(other@) && other@ != old(self).peer_id@ && other@
                != old(self).server_id@ ==> completion_hashed(
                bridge,
                old(self).relationships@[other@],
                final(self).relationships@[other@],
                r,
                completion_owed(
                    old(self).relationships@[other@],
                    match remote {
                        Some(e) => Some(*e),
                        None => None,
                    },
                    other@,
                    old(self).peer_id,
                ),
            ),
            // The exchange in progress moves only on the peer's messages
            // that the bridge accepted.
            old(self).relationships@.contains_key(other@) && other@ != old(self).peer_id@ && other@
                != old(self).server_id@ && r is Ok && old(self).relationships@[other@].pending is Some
                && !(old(self).relationships@[other@].gated || old(self).relationships@[other@].status
                == Status::Blocked) ==> folds_only_accepted(
                bridge,
                old(self).relationships@[other@].pending->0,
                match remote {
                    Some(e) => Some(*e),
                    None => None,
                },
                other@,
            ),
            // A new exchange holds the candidate the bridge's key agreement
            // and derivation gave: the initiator's by encapsulating to the
            // responder's key, the responder's by decapsulating with its
            // own private key.
            old(self).relationships@.contains_key(other@) && other@ != old(self).peer_id@ && other@
                != old(self).server_id@ && old(self).relationships@[other@].pending is None
                && final(self).relationships@[other@].pending is Some ==> {
                let p = final(self).relationships@[other@].pending->0;
                if old(self).peer_id@ < other@ {
                    proposed(
                        bridge,
                        p.transcript,
                        old(self).relationships@[other@].operator_psk@,
                        p.candidate,
                    )
                } else {
                    answered(
                        bridge,
                        p.transcript,
                        HybridSecret { kem: old(self).identity.kem.0, x448: old(self).identity.x448.0 },
                        old(self).relationships@[other@].operator_psk@,
                        p.candidate,
                    )
                }
            },
    {
        let key = other.get();
        let peer = self.peer_id.get();
        if key == peer || key == self.server_id.get() {
            return Err(Error::Invalid);
        }
        let mut relationship = match self.relationships.remove(&key) {
            Some(r) => r,
            None => return Err(Error::Invalid),
        };
        let local = Local {
            network_id: self.network_id,
            self_id: self.peer_id,
            other: other,
            initiator: peer < key,
            bundle: self.identity.bundle,
            signing: self.identity.signing.0,
            hybrid: self.identity.hybrid_secret(),
        };
        let result = drive(
            &local,
            &mut relationship,
            remote,
            now,
            rotation_interval,
            installer,
            rng,
            bridge,
        );
        self.relationships.insert(key, relationship);
        proof {
            assert(self.relationships@.dom() =~= old(self).relationships@.dom());
        }
        result
    }
}

} // verus!

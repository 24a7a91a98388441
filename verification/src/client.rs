//! A data client's decisions around its exchanges: which relationships
//! qualify for permissive mode's legacy exception, which gates to re-check,
//! how the paginated state is walked, which exchange record belongs to a
//! peer, how first registration builds the private state, and the client
//! side of administrative management-link rotation.
use vstd::prelude::*;

use crate::api::{AdvertisedBundle, Exchange, Lifecycle, PeerState, Registration, StatePage};
use crate::crypto::{Bridge, Random};
use crate::engine::{reconciled, Action, Installer};
use crate::codec::{base64_encode, base64_text};
use crate::gate::Element;
use crate::enrollment::Enrollment as LinkEnrollment;
use crate::protocol::{Binary, Bundle, Number};
use crate::rosenpass::{join_path, joined_path};
use crate::state::{
    observed, only_relationships_changed, sampled, EndpointState, Enrollment, Identity,
    ManagementLink, Policy, Relationship,
};
use crate::Error;
use std::collections::BTreeMap;

verus! {

/// Where an interface's exchange state is kept: `<data_dir>/<interface>.pq`.
pub fn state_path(data_dir: &str, interface: &str) -> (r: String)
    ensures
        r@ == joined_path(data_dir@, interface@ + ".pq"@),
{
    let mut name = String::from_str(interface);
    name.append(".pq");
    join_path(data_dir, name.as_str())
}

/// Where an interface's management link is kept:
/// `<data_dir>/<interface>.client-pq`.
pub fn management_path(data_dir: &str, interface: &str) -> (r: String)
    ensures
        r@ == joined_path(data_dir@, interface@ + ".client-pq"@),
{
    let mut name = String::from_str(interface);
    name.append(".client-pq");
    join_path(data_dir, name.as_str())
}

/// Whether peer `other` (advertising a bundle iff `has_bundle`) qualifies
/// for permissive mode's legacy exception: permissive policy, no bundle,
/// and never confirmed PQ with this endpoint. `prior_pq` survives an
/// emergency retirement, so a relationship that ever completed PQ never
/// slides back into legacy eligibility.
pub open spec fn eligible_for_legacy(s: EndpointState, other: u64, has_bundle: bool) -> bool {
    &&& s.policy == Policy::Permissive
    &&& !has_bundle
    &&& !(s.relationships@.contains_key(other) && s.relationships@[other].prior_pq)
}

pub fn legacy_eligible(state: &EndpointState, other: Number, has_bundle: bool) -> (r: bool)
    ensures
        r == eligible_for_legacy(*state, other@, has_bundle),
{
    if state.policy != Policy::Permissive || has_bundle {
        return false;
    }
    match state.relationships.get(&other.get()) {
        Some(r) => !r.prior_pq,
        None => true,
    }
}

/// Once an exchange ever completed, no policy change makes the peer
/// legacy-eligible again while it has no bundle.
pub proof fn lemma_prior_pq_is_never_legacy(s: EndpointState, other: u64, has_bundle: bool)
    requires
        s.relationships@.contains_key(other),
        s.relationships@[other].prior_pq,
    ensures
        !eligible_for_legacy(s, other, has_bundle),
{
}

/// Whether some settled relationship (confirmed, nothing in progress) has
/// remote bundle `b`.
pub open spec fn settled_remote(s: EndpointState, b: Bundle) -> bool {
    exists|k: u64| #[trigger]
        s.relationships@.contains_key(k) && s.relationships@[k].remote == b
            && s.relationships@[k].pending is None && s.relationships@[k].confirmed is Some
}

/// What the proactive gating pass of a fetch does with one state-page
/// entry, before the ordinary peer update gives the peer connectivity.
#[derive(Clone, Copy, Debug, PartialEq, Eq, Structural)]
pub enum GateChoice {
    /// Not a data peer of this endpoint, or already confirmed (its gate is
    /// re-checked once peers are live).
    Skip,
    /// Close the peer's gate: it has no confirmed PQ link yet.
    Gate,
    /// Open the peer's gate: it qualifies for the legacy exception.
    Release,
}

/// The gating choice for an entry with identifier `id`.
pub open spec fn gate_choice(s: EndpointState, is_server: bool, id: i64, has_bundle: bool) -> GateChoice {
    if is_server || id <= 0 || id == s.server_id@ || id == s.peer_id@ {
        GateChoice::Skip
    } else if s.relationships@.contains_key(id as u64) && s.relationships@[id as u64].confirmed
        is Some {
        GateChoice::Skip
    } else if eligible_for_legacy(s, id as u64, has_bundle) {
        GateChoice::Release
    } else {
        GateChoice::Gate
    }
}

pub fn proactive_gate(state: &EndpointState, is_server: bool, id: i64, has_bundle: bool) -> (r:
    GateChoice)
    ensures
        r == gate_choice(*state, is_server, id, has_bundle),
{
    if is_server || id <= 0 {
        return GateChoice::Skip;
    }
    let other = match Number::new(id as u64) {
        Ok(n) => n,
        Err(_) => return GateChoice::Skip,
    };
    if other.get() == state.server_id.get() || other.get() == state.peer_id.get() {
        return GateChoice::Skip;
    }
    match state.relationships.get(&other.get()) {
        Some(r) => {
            if r.confirmed.is_some() {
                return GateChoice::Skip;
            }
        },
        None => {},
    }
    if legacy_eligible(state, other, has_bundle) {
        GateChoice::Release
    } else {
        GateChoice::Gate
    }
}

/// A peer that ever completed PQ with this endpoint is never released by
/// the proactive gating pass, whatever the policy and whether or not it
/// advertises a bundle.
pub proof fn lemma_prior_pq_never_released(s: EndpointState, is_server: bool, id: i64, has_bundle: bool)
    requires
        id > 0,
        s.relationships@.contains_key(id as u64),
        s.relationships@[id as u64].prior_pq,
    ensures
        gate_choice(s, is_server, id, has_bundle) != GateChoice::Release,
{
}

/// A data peer with no bundle is released only under the permissive policy.
pub proof fn lemma_strict_policy_never_releases(s: EndpointState, is_server: bool, id: i64, has_bundle: bool)
    requires
        s.policy == Policy::Strict,
    ensures
        gate_choice(s, is_server, id, has_bundle) != GateChoice::Release,
{
}

/// The remote bundles of the settled relationships whose gates must be
/// re-checked; none while the endpoint's registration is retiring or
/// retired, whose gates stay closed.
pub fn gate_rechecks(state: &EndpointState) -> (r: Vec<Bundle>)
    ensures
        state.registration.lifecycle == Lifecycle::Retired ==> r@.len() == 0,
        forall|i: int| 0 <= i < r@.len() ==> settled_remote(*state, #[trigger] r@[i]),
        state.registration.lifecycle != Lifecycle::Retired ==> forall|k: u64| #[trigger]
            state.relationships@.contains_key(k) && state.relationships@[k].pending is None
                && state.relationships@[k].confirmed is Some ==> r@.contains(
                state.relationships@[k].remote,
            ),
{
    let mut out: Vec<Bundle> = Vec::new();
    if state.registration.lifecycle == Lifecycle::Retired {
        return out;
    }
    let keys = crate::state::key_list(&state.relationships);
    let mut i: usize = 0;
    while i < keys.len()
        invariant
            i <= keys@.len(),
            keys@.to_set() == state.relationships@.dom(),
            forall|j: int| 0 <= j < out@.len() ==> settled_remote(*state, #[trigger] out@[j]),
            forall|x: int|
                0 <= x < i ==> {
                    let k = #[trigger] keys@[x];
                    state.relationships@[k].pending is None
                        && state.relationships@[k].confirmed is Some ==> out@.contains(
                        state.relationships@[k].remote,
                    )
                },
        decreases keys@.len() - i,
    {
        let k = keys[i];
        proof {
            assert(keys@.to_set().contains(k));
        }
        match state.relationships.get(&k) {
            Some(r) => {
                if r.pending.is_none() && r.confirmed.is_some() {
                    let ghost before = out@;
                    proof {
                        assert(settled_remote(*state, r.remote)) by {
                            assert(state.relationships@.contains_key(k));
                        }
                    }
                    out.push(r.remote);
                    proof {
                        assert forall|j: int| 0 <= j < out@.len() implies settled_remote(
                            *state,
                            #[trigger] out@[j],
                        ) by {
                            if j < before.len() {
                                assert(out@[j] == before[j]);
                            }
                        }
                        assert(out@[out@.len() - 1] == r.remote);
                        assert forall|x: int| 0 <= x < i implies {
                            let k2 = #[trigger] keys@[x];
                            state.relationships@[k2].pending is None
                                && state.relationships@[k2].confirmed is Some ==> out@.contains(
                                state.relationships@[k2].remote,
                            )
                        } by {
                            let k2 = keys@[x];
                            if state.relationships@[k2].pending is None
                                && state.relationships@[k2].confirmed is Some {
                                let y = choose|y: int|
                                    0 <= y < before.len() && before[y]
                                        == state.relationships@[k2].remote;
                                assert(out@[y] == before[y]);
                            }
                        }
                    }
                }
            },
            None => {},
        }
        i += 1;
    }
    proof {
        assert forall|k: u64| #[trigger]
            state.relationships@.contains_key(k) && state.relationships@[k].pending is None
                && state.relationships@[k].confirmed is Some implies out@.contains(
            state.relationships@[k].remote,
        ) by {
            assert(keys@.to_set().contains(k));
            let x = choose|x: int| 0 <= x < keys@.len() && keys@[x] == k;
            assert(keys@[x] == k);
        }
    }
    out
}

/// The first exchange record between `self_id` and `other`, in either role.
/// The first record in `es` between `a` and `b`, in either role.
pub open spec fn pair_exchange(es: Seq<Exchange>, a: u64, b: u64) -> Option<Exchange> {
    if exists|i: int| 0 <= i < es.len() && #[trigger] between_ids(es[i], a, b) {
        let i = choose|i: int|
            0 <= i < es.len() && #[trigger] between_ids(es[i], a, b) && forall|j: int|
                0 <= j < i ==> !between_ids(#[trigger] es[j], a, b);
        Some(es[i])
    } else {
        None
    }
}

pub fn exchange_for<'a>(exchanges: &'a [Exchange], self_id: Number, other: Number) -> (r: Option<
    &'a Exchange,
>)
    ensures
        match r {
            Some(e) => pair_exchange(exchanges@, self_id@, other@) == Some(*e),
            None => pair_exchange(exchanges@, self_id@, other@) is None,
        },
        match r {
            Some(e) => exists|i: int|
                0 <= i < exchanges@.len() && exchanges@[i] == *e && between(*e, self_id, other)
                    && forall|j: int| 0 <= j < i ==> !between(#[trigger] exchanges@[j], self_id, other),
            None => forall|i: int|
                0 <= i < exchanges@.len() ==> !between(#[trigger] exchanges@[i], self_id, other),
        },
{
    let a = self_id.get();
    let b = other.get();
    let mut i: usize = 0;
    while i < exchanges.len()
        invariant
            i <= exchanges@.len(),
            a == self_id@,
            b == other@,
            forall|j: int| 0 <= j < i ==> !between(#[trigger] exchanges@[j], self_id, other),
        decreases exchanges@.len() - i,
    {
        let e = &exchanges[i];
        let x = e.initiator_id.get();
        let y = e.responder_id.get();
        if (x == a && y == b) || (x == b && y == a) {
            proof {
                let es = exchanges@;
                assert(between(es[i as int], self_id, other));
                assert(between_ids(es[i as int], self_id@, other@));
                let k = choose|k: int|
                    0 <= k < es.len() && #[trigger] between_ids(es[k], self_id@, other@) && forall|
                        j: int,
                    | 0 <= j < k ==> !between_ids(#[trigger] es[j], self_id@, other@);
                if k < i {
                    assert(!between(es[k], self_id, other));
                }
                if k > i {
                    assert(!between_ids(es[i as int], self_id@, other@));
                }
            }
            return Some(e);
        }
        i += 1;
    }
    None
}

/// Whether exchange `e` is between `a` and `b`, in either role.
pub open spec fn between(e: Exchange, a: Number, b: Number) -> bool {
    between_ids(e, a@, b@)
}

/// Whether record `e` is between the peers `a` and `b`, in either role.
pub open spec fn between_ids(e: Exchange, a: u64, b: u64) -> bool {
    (e.initiator_id@ == a && e.responder_id@ == b) || (e.initiator_id@ == b && e.responder_id@
        == a)
}

/// The peer whose relationship a state-page entry drives: none for the
/// server's entry, an identifier outside `1..=i64::MAX`, this endpoint or
/// the server itself, or an entry without an advertised bundle.
pub open spec fn entry_target(
    is_server: bool,
    id: i64,
    has_bundle: bool,
    self_id: Number,
    server_id: Number,
) -> Option<u64> {
    if is_server || id <= 0 || id == self_id@ || id == server_id@ || !has_bundle {
        None
    } else {
        Some(id as u64)
    }
}

pub fn data_peer(
    is_server: bool,
    id: i64,
    has_bundle: bool,
    self_id: Number,
    server_id: Number,
) -> (r: Option<Number>)
    ensures
        match r {
            Some(n) => entry_target(is_server, id, has_bundle, self_id, server_id) == Some(n@),
            None => entry_target(is_server, id, has_bundle, self_id, server_id) is None,
        },
{
    if is_server || id <= 0 {
        return None;
    }
    let other = match Number::new(id as u64) {
        Ok(n) => n,
        Err(_) => return None,
    };
    if other.get() == self_id.get() || other.get() == server_id.get() || !has_bundle {
        return None;
    }
    Some(other)
}

/// Why fetching one page failed.
pub enum TransportError<E> {
    /// The visibility revision changed mid-walk; restart pagination.
    Conflict,
    /// Any other failure, which ends the walk.
    Other(E),
}

/// The accumulated pages of one walk over the paginated state, restarted
/// whenever the visibility revision changes mid-walk.
pub struct StateWalk<P> {
    pub peers: Vec<PeerState<P>>,
    pub exchanges: Vec<Exchange>,
    pub cursor: Option<String>,
}

impl<P> StateWalk<P> {
    pub fn new() -> (r: StateWalk<P>)
        ensures
            r.peers@.len() == 0,
            r.exchanges@.len() == 0,
            r.cursor is None,
    {
        StateWalk { peers: Vec::new(), exchanges: Vec::new(), cursor: None }
    }

    /// Adds a page's peers and exchanges and follows its cursor; true when
    /// it was the last page.
    pub fn absorb<C>(&mut self, page: StatePage<P, C>) -> (done: bool)
        ensures
            final(self).peers@ == old(self).peers@ + page.peers@,
            final(self).exchanges@ == old(self).exchanges@ + page.exchanges@,
            final(self).cursor == page.next_cursor,
            done == page.next_cursor is None,
    {
        let mut page = page;
        self.peers.append(&mut page.peers);
        self.exchanges.append(&mut page.exchanges);
        let done = page.next_cursor.is_none();
        self.cursor = page.next_cursor;
        done
    }

    /// Starts over from the first page.
    /// Takes the outcome of one page fetch: a page is absorbed (`Ok(true)`
    /// once it was the last), a revision conflict restarts the walk
    /// (`Ok(false)`), and any other failure ends it with that error,
    /// leaving the walk as it was.
    pub fn step<C, E>(&mut self, fetched: Result<StatePage<P, C>, TransportError<E>>) -> (r: Result<
        bool,
        E,
    >)
        ensures
            match fetched {
                Ok(page) => {
                    &&& r == Ok::<bool, E>(page.next_cursor is None)
                    &&& final(self).peers@ == old(self).peers@ + page.peers@
                    &&& final(self).exchanges@ == old(self).exchanges@ + page.exchanges@
                    &&& final(self).cursor == page.next_cursor
                },
                Err(TransportError::Conflict) => {
                    &&& r == Ok::<bool, E>(false)
                    &&& final(self).peers@.len() == 0
                    &&& final(self).exchanges@.len() == 0
                    &&& final(self).cursor is None
                },
                Err(TransportError::Other(e)) => {
                    &&& r == Err::<bool, E>(e)
                    &&& final(self).peers@ == old(self).peers@
                    &&& final(self).exchanges@ == old(self).exchanges@
                    &&& final(self).cursor == old(self).cursor
                },
            },
    {
        match fetched {
            Ok(page) => Ok(self.absorb(page)),
            Err(TransportError::Conflict) => {
                self.restart();
                Ok(false)
            },
            Err(TransportError::Other(e)) => Err(e),
        }
    }

    pub fn restart(&mut self)
        ensures
            final(self).peers@.len() == 0,
            final(self).exchanges@.len() == 0,
            final(self).cursor is None,
    {
        self.peers.clear();
        self.exchanges.clear();
        self.cursor = None;
    }
}

/// The first index of an entry with key text `key`, if any.
fn find_entry(entries: &[(i64, Vec<u8>, bool)], key: &[u8]) -> (r: Option<usize>)
    ensures
        match r {
            Some(i) => i < entries@.len() && entries@[i as int].1@ == key@ && forall|j: int|
                0 <= j < i ==> (#[trigger] entries@[j]).1@ != key@,
            None => forall|j: int| 0 <= j < entries@.len() ==> (#[trigger] entries@[j]).1@ != key@,
        },
{
    let mut i: usize = 0;
    while i < entries.len()
        invariant
            i <= entries@.len(),
            forall|j: int| 0 <= j < i ==> (#[trigger] entries@[j]).1@ != key@,
        decreases entries@.len() - i,
    {
        if crate::codec::same_slice(entries[i].1.as_slice(), key) {
            return Some(i);
        }
        i += 1;
    }
    None
}

fn find_server(entries: &[(i64, Vec<u8>, bool)]) -> (r: Option<usize>)
    ensures
        match r {
            Some(i) => i < entries@.len() && entries@[i as int].2 && forall|j: int|
                0 <= j < i ==> !(#[trigger] entries@[j]).2,
            None => forall|j: int| 0 <= j < entries@.len() ==> !(#[trigger] entries@[j]).2,
        },
{
    let mut i: usize = 0;
    while i < entries.len()
        invariant
            i <= entries@.len(),
            forall|j: int| 0 <= j < i ==> !(#[trigger] entries@[j]).2,
        decreases entries@.len() - i,
    {
        if entries[i].2 {
            return Some(i);
        }
        i += 1;
    }
    None
}

/// Why first registration cannot build the private state.
#[derive(Clone, Copy, Debug, PartialEq, Eq, Structural)]
pub enum RegisterError {
    /// No entry carries this endpoint's WireGuard key.
    SelfNotFound,
    /// No entry is the server's.
    ServerNotFound,
    /// This endpoint's identifier is not a valid identifier.
    InvalidSelf,
    /// The server's identifier is not a valid identifier.
    InvalidServer,
}

/// Builds the private state of a first activation from the state page's
/// `entries` (identifier, WireGuard key text, whether it is the server):
/// this endpoint's entry is the first with the base64 text of
/// `own_public_key`, the server's the first marked as the server. The
/// fresh `identity` is registered as enabled and advertised.
pub fn register_state(
    network_id: Binary<16>,
    entries: &[(i64, Vec<u8>, bool)],
    own_public_key: Binary<32>,
    identity: Identity,
    management: ManagementLink,
) -> (r: Result<EndpointState, RegisterError>)
    ensures
        match r {
            Ok(s) => {
                &&& s.network_id == network_id
                &&& s.identity == identity
                &&& s.management == management
                &&& s.policy == Policy::Strict
                &&& s.enrollment == Enrollment::Advertised
                &&& s.registration == (Registration {
                    expected_revision: None,
                    pq_version: 1,
                    lifecycle: Lifecycle::Enabled,
                    bundle: identity.bundle,
                    emergency: false,
                })
                &&& s.server_public_key@ == Seq::new(32, |i: int| 0u8)
                &&& s.relationships@ == Map::<u64, Relationship>::empty()
                &&& exists|i: int|
                    0 <= i < entries@.len() && entries@[i].1@ == base64_text(own_public_key@)
                        && entries@[i].0 == s.peer_id@
                &&& exists|i: int| 0 <= i < entries@.len() && entries@[i].2 && entries@[i].0
                    == s.server_id@
            },
            Err(e) => {
                &&& e == RegisterError::SelfNotFound ==> forall|i: int|
                    0 <= i < entries@.len() ==> (#[trigger] entries@[i]).1@ != base64_text(
                        own_public_key@,
                    )
                &&& e == RegisterError::ServerNotFound ==> forall|i: int|
                    0 <= i < entries@.len() ==> !(#[trigger] entries@[i]).2
            },
        },
{
    let own = base64_encode(&own_public_key.0);
    let me = match find_entry(entries, own.as_slice()) {
        Some(i) => i,
        None => return Err(RegisterError::SelfNotFound),
    };
    let server = match find_server(entries) {
        Some(i) => i,
        None => return Err(RegisterError::ServerNotFound),
    };
    let me_id = entries[me].0;
    let server_raw = entries[server].0;
    if me_id <= 0 {
        return Err(RegisterError::InvalidSelf);
    }
    let self_id = match Number::new(me_id as u64) {
        Ok(n) => n,
        Err(_) => return Err(RegisterError::InvalidSelf),
    };
    if server_raw <= 0 {
        return Err(RegisterError::InvalidServer);
    }
    let server_id = match Number::new(server_raw as u64) {
        Ok(n) => n,
        Err(_) => return Err(RegisterError::InvalidServer),
    };
    proof {
        assert(entries@[me as int].1@ == base64_text(own_public_key@));
        assert(entries@[me as int].0 == self_id@);
        assert(entries@[server as int].2 && entries@[server as int].0 == server_id@);
    }
    let state = EndpointState {
        network_id: network_id,
        peer_id: self_id,
        server_id: server_id,
        server_public_key: Binary([0u8; 32]),
        policy: Policy::Strict,
        registration: Registration {
            expected_revision: None,
            pq_version: 1,
            lifecycle: Lifecycle::Enabled,
            bundle: identity.bundle,
            emergency: false,
        },
        identity: identity,
        enrollment: Enrollment::Advertised,
        management: management,
        relationships: BTreeMap::new(),
    };
    proof {
        assert(state.server_public_key@ =~= Seq::new(32, |i: int| 0u8));
    }
    Ok(state)
}

/// Where a registration change still awaiting confirmation must be
/// submitted: `Some(true)` for a retirement, `Some(false)` otherwise, and
/// `None` once the enrollment has settled.
pub fn registration_route(state: &EndpointState) -> (r: Option<bool>)
    ensures
        r == if state.enrollment == Enrollment::Registering || state.enrollment
            == Enrollment::Retiring {
            Some(state.registration.lifecycle == Lifecycle::Retired)
        } else {
            None
        },
{
    if state.enrollment == Enrollment::Registering || state.enrollment == Enrollment::Retiring {
        Some(state.registration.lifecycle == Lifecycle::Retired)
    } else {
        None
    }
}

/// A client's management-link state: the active enrollment, a staged
/// rotation candidate, and once one is applied, the superseded enrollment.
#[derive(Clone, Copy)]
pub struct ManagementState {
    pub active: LinkEnrollment,
    pub staged: Option<LinkEnrollment>,
    pub previous: Option<LinkEnrollment>,
}

pub open spec fn enrollment_ok(e: LinkEnrollment) -> bool {
    e.peer_id > 0 && e.server_id > 0 && e.peer_id != e.server_id
}

pub open spec fn management_ok(s: ManagementState) -> bool {
    &&& enrollment_ok(s.active)
    &&& (s.staged matches Some(e) ==> enrollment_ok(e))
    &&& (s.previous matches Some(e) ==> enrollment_ok(e))
}

/// The state after the staged candidate is applied.
pub open spec fn client_applied(s: ManagementState) -> ManagementState {
    ManagementState { active: s.staged->0, staged: None, previous: Some(s.active) }
}

/// The state after a rollback.
pub open spec fn client_rolled_back(s: ManagementState) -> ManagementState {
    ManagementState { active: s.previous->0, staged: None, previous: None }
}

impl ManagementState {
    /// A freshly adopted enrollment, with no rotation under way.
    pub fn adopt(enrollment: LinkEnrollment) -> (r: Result<ManagementState, &'static str>)
        ensures
            r is Ok <==> enrollment_ok(enrollment),
            r matches Ok(s) ==> s.active == enrollment && s.staged is None && s.previous is None,
    {
        enrollment.validate()?;
        Ok(ManagementState { active: enrollment, staged: None, previous: None })
    }

    /// Every enrollment held is valid.
    pub fn validate(&self) -> (r: Result<(), &'static str>)
        ensures
            r is Ok <==> management_ok(*self),
    {
        self.active.validate()?;
        if let Some(e) = &self.staged {
            e.validate()?;
        }
        if let Some(e) = &self.previous {
            e.validate()?;
        }
        Ok(())
    }

    /// Stages a rotation candidate without touching the active enrollment.
    pub fn stage(&mut self, enrollment: LinkEnrollment) -> (r: Result<(), &'static str>)
        ensures
            r is Ok <==> enrollment_ok(enrollment),
            r is Ok ==> *final(self) == (ManagementState { staged: Some(enrollment), ..*old(self) }),
            r is Err ==> *final(self) == *old(self),
    {
        enrollment.validate()?;
        self.staged = Some(enrollment);
        Ok(())
    }

    /// Promotes the staged candidate, keeping the superseded enrollment.
    pub fn apply(&mut self) -> (r: Result<(), &'static str>)
        ensures
            r is Ok <==> old(self).staged is Some,
            r is Ok ==> *final(self) == client_applied(*old(self)),
            r is Err ==> *final(self) == *old(self),
    {
        match self.staged {
            Some(staged) => {
                self.previous = Some(self.active);
                self.active = staged;
                self.staged = None;
                Ok(())
            },
            None => Err("no rotation is staged"),
        }
    }

    /// Discards the superseded enrollment.
    pub fn confirm(&mut self) -> (r: Result<(), &'static str>)
        ensures
            r is Ok <==> old(self).previous is Some,
            r is Ok ==> *final(self) == (ManagementState { previous: None, ..*old(self) }),
            r is Err ==> *final(self) == *old(self),
    {
        if self.previous.is_none() {
            return Err("no rotation to confirm");
        }
        self.previous = None;
        Ok(())
    }

    /// Restores the enrollment that was active before the rotation.
    pub fn rollback(&mut self) -> (r: Result<(), &'static str>)
        ensures
            r is Ok <==> old(self).previous is Some,
            r is Ok ==> *final(self) == client_rolled_back(*old(self)),
            r is Err ==> *final(self) == *old(self),
    {
        match self.previous {
            Some(previous) => {
                self.staged = None;
                self.previous = None;
                self.active = previous;
                Ok(())
            },
            None => Err("no rotation to roll back"),
        }
    }
}

/// Applying a staged candidate and rolling back restores the enrollment
/// that was active before, with no rotation left under way; every step
/// keeps every enrollment valid.
pub proof fn lemma_client_rollback_undoes_apply(s: ManagementState)
    requires
        s.staged is Some,
        management_ok(s),
    ensures
        client_rolled_back(client_applied(s)).active == s.active,
        client_rolled_back(client_applied(s)).staged is None,
        client_rolled_back(client_applied(s)).previous is None,
        management_ok(client_applied(s)),
        management_ok(client_rolled_back(client_applied(s))),
{
}

/// Why one directory entry was not advanced in a sync cycle.
#[derive(Clone, Copy, Debug, PartialEq, Eq, Structural)]
pub enum PeerSkip {
    /// Not a data peer with a bundle: the server, this endpoint, an
    /// invalid identifier, or a peer advertising no bundle.
    NotDataPeer,
    /// Its advertised bundle was refused.
    Observe(Error),
    /// The exchange step failed.
    Reconcile(Error),
}

/// The exchange step's outcome as `reconcile` reports it.
pub open spec fn step_result(r: Result<Action, PeerSkip>) -> Result<Action, Error> {
    match r {
        Ok(a) => Ok(a),
        Err(PeerSkip::Reconcile(e)) => Err(e),
        Err(_) => Err(Error::Invalid),
    }
}

/// The relationship an exchange step starts from: `observed`, sampled
/// with the tunnel's byte `counters` when there are any.
pub open spec fn with_counters(r: Relationship, counters: Option<(u64, u64)>, now: u64) -> Relationship {
    match counters {
        Some((rx, tx)) => Relationship { activity: sampled(r.activity, now, rx, tx), ..r },
        None => r,
    }
}

/// What one directory entry's turn in a sync cycle does, from state `s0`
/// to state `s1` with result `r`: see `sync_peer`.
pub open spec fn peer_synced(
    s0: EndpointState,
    s1: EndpointState,
    entry: (i64, bool),
    advertised: Option<AdvertisedBundle>,
    counters: Option<(u64, u64)>,
    exchanges: Seq<Exchange>,
    now: u64,
    rotation_interval: u64,
    r: Result<Action, PeerSkip>,
) -> bool {
    &&& only_relationships_changed(s0, s1)
    &&& entry_target(entry.1, entry.0, advertised is Some, s0.peer_id, s0.server_id) is None ==> r
        == Err::<Action, PeerSkip>(PeerSkip::NotDataPeer) && s1.relationships@ == s0.relationships@
    &&& (r matches Err(PeerSkip::Observe(_))) ==> s1.relationships@ == s0.relationships@
    // A data peer's advertised bundle is observed: it is refused exactly
    // when `observation` refuses it, given the bundle check's outcome; a
    // newer valid bundle goes on to the exchange step.
    &&& entry_target(entry.1, entry.0, advertised is Some, s0.peer_id, s0.server_id) is Some
        ==> exists|x448_check: Result<(), Error>, signing_check: Result<(), Error>| {
        let v = #[trigger] crate::state::observation(
            s0.relationships@,
            entry.0 as u64,
            advertised->0.bundle,
            advertised->0.lifecycle,
            crate::protocol::bundle_check(advertised->0.bundle, x448_check, signing_check),
        );
        &&& (v is Err <==> (r matches Err(PeerSkip::Observe(_))))
        &&& (v matches Err(e) ==> r == Err::<Action, PeerSkip>(PeerSkip::Observe(e)))
    }
    &&& (r is Ok || (r matches Err(PeerSkip::Reconcile(_)))) ==> {
        let other = entry.0 as u64;
        let a = advertised->0;
        let initiator = s0.peer_id@ < other;
        &&& entry_target(entry.1, entry.0, true, s0.peer_id, s0.server_id) == Some(other)
        &&& advertised is Some
        &&& s1.relationships@.dom() == s0.relationships@.dom().insert(other)
        &&& s1.relationships@.remove(other) == s0.relationships@.remove(other)
        &&& exists|o: Relationship|
            observed(s0.relationships@, other, a.bundle, a.lifecycle, initiator, o) && reconciled(
                #[trigger] with_counters(o, counters, now),
                s1.relationships@[other],
                step_result(r),
                initiator,
                s0.peer_id,
                now,
                rotation_interval,
                (s0.network_id, other, s0.identity.bundle),
                pair_exchange(exchanges, s0.peer_id@, other),
            )
    }
}

/// One directory entry's turn in a sync cycle: a data peer with an
/// advertised bundle has that bundle observed, its tunnel counters sampled
/// when the device reported any, and its exchange advanced one step
/// against the server's record for the pair. The caller persists the
/// state before acting on the returned action.
pub fn sync_peer<I: Installer, R: Random, B: Bridge>(
    state: &mut EndpointState,
    entry: (i64, bool),
    advertised: Option<AdvertisedBundle>,
    counters: Option<(u64, u64)>,
    exchanges: &[Exchange],
    now: u64,
    rotation_interval: u64,
    installer: &mut I,
    rng: &mut R,
    bridge: &B,
) -> (r: Result<Action, PeerSkip>)
    ensures
        peer_synced(
            *old(state),
            *final(state),
            entry,
            advertised,
            counters,
            exchanges@,
            now,
            rotation_interval,
            r,
        ),
        // A skipped entry, or one whose bundle is refused, draws no
        // randomness and makes no installer call.
        (r matches Err(PeerSkip::NotDataPeer)) || (r matches Err(PeerSkip::Observe(_)))
            ==> *final(installer) == *old(installer) && *final(rng) == *old(rng),        // Otherwise at most the exchange's candidate PSK is installed, for
        // the advertised bundle.
        (r is Ok || (r matches Err(PeerSkip::Reconcile(_)))) ==> {
            ||| final(installer).installs() == old(installer).installs()
            ||| final(state).relationships@[entry.0 as u64].pending matches Some(p) && p.installed
                && final(installer).installs() == old(installer).installs().push(
                (advertised->0.bundle.bundle_id@, p.candidate.psk@),
            )
        },
{
    let (id, is_server) = entry;
    let other = match data_peer(
        is_server,
        id,
        advertised.is_some(),
        state.peer_id,
        state.server_id,
    ) {
        Some(n) => n,
        None => return Err(PeerSkip::NotDataPeer),
    };
    let a = match advertised {
        Some(a) => a,
        None => return Err(PeerSkip::NotDataPeer),
    };
    let ghost before = *state;
    let observed_result = state.observe_remote(other, &a.bundle, a.lifecycle, bridge);
    let ghost (x448_check, signing_check) = choose|x: Result<(), Error>, s: Result<(), Error>|
        observed_result == #[trigger] crate::state::observation(
            before.relationships@,
            other@,
            a.bundle,
            a.lifecycle,
            crate::protocol::bundle_check(a.bundle, x, s),
        );
    assert(observed_result == crate::state::observation(
        before.relationships@,
        other@,
        a.bundle,
        a.lifecycle,
        crate::protocol::bundle_check(a.bundle, x448_check, signing_check),
    ));
    match observed_result {
        Ok(()) => {},
        Err(e) => return Err(PeerSkip::Observe(e)),
    }
    let ghost seen = state.relationships@[other@];
    proof {
        assert(observed(
            before.relationships@,
            other@,
            a.bundle,
            a.lifecycle,
            before.peer_id@ < other@,
            seen,
        ));
    }
    if let Some((rx, tx)) = counters {
        let sampled_ok = state.observe_activity(other, now, rx, tx);
        assert(sampled_ok is Ok);
    }
    let ghost start = *state;
    proof {
        assert(start.relationships@[other@] == with_counters(seen, counters, now));
    }
    let exchange = exchange_for(exchanges, state.peer_id, other);
    let ghost remote = match exchange {
        Some(e) => Some(*e),
        None => None,
    };
    assert(remote == pair_exchange(exchanges@, before.peer_id@, other@));
    let result = state.reconcile(other, exchange, now, rotation_interval, installer, rng, bridge);
    proof {
        assert(state.relationships@.remove(other@) =~= before.relationships@.remove(other@));
        assert(state.relationships@.dom() =~= before.relationships@.dom().insert(other@));
        assert(reconciled(
            with_counters(seen, counters, now),
            state.relationships@[other@],
            result,
            before.peer_id@ < other@,
            before.peer_id,
            now,
            rotation_interval,
            (before.network_id, other@, before.identity.bundle),
            remote,
        ));
    }
    let r = match result {
        Ok(action) => Ok(action),
        Err(e) => Err(PeerSkip::Reconcile(e)),
    };
    assert(step_result(r) == result);
    r
}

/// One sync cycle over the directory: every entry, in order, gets its
/// `sync_peer` turn on the state the entries before it left, whatever
/// became of them, so one peer's failure never keeps another from its
/// step. Each entry is (identifier, is the server, advertised bundle,
/// tunnel byte counters). The caller persists the state before acting on
/// any returned action.
pub fn sync_directory<I: Installer, R: Random, B: Bridge>(
    state: &mut EndpointState,
    entries: &[(i64, bool, Option<AdvertisedBundle>, Option<(u64, u64)>)],
    exchanges: &[Exchange],
    now: u64,
    rotation_interval: u64,
    installer: &mut I,
    rng: &mut R,
    bridge: &B,
) -> (r: Vec<Result<Action, PeerSkip>>)
    ensures
        r@.len() == entries@.len(),
        exists|states: Seq<EndpointState>|
            {
                &&& states.len() == entries@.len() + 1
                &&& states[0] == *old(state)
                &&& states.last() == *final(state)
                &&& forall|i: int|
                    0 <= i < entries@.len() ==> #[trigger] peer_synced(
                        states[i],
                        states[i + 1],
                        (entries@[i].0, entries@[i].1),
                        entries@[i].2,
                        entries@[i].3,
                        exchanges@,
                        now,
                        rotation_interval,
                        r@[i],
                    )
            },
        exists|installers: Seq<I>, rngs: Seq<R>|
            {
                &&& installers.len() == entries@.len() + 1
                &&& rngs.len() == entries@.len() + 1
                &&& installers[0] == *old(installer)
                &&& rngs[0] == *old(rng)
                &&& installers.last() == *final(installer)
                &&& rngs.last() == *final(rng)
                &&& forall|i: int|
                    0 <= i < entries@.len() && ((#[trigger] r@[i] matches Err(PeerSkip::NotDataPeer))
                        || (r@[i] matches Err(PeerSkip::Observe(_)))) ==> installers[i + 1]
                        == installers[i] && rngs[i + 1] == rngs[i]
            },
{
    let ghost mut states: Seq<EndpointState> = seq![*state];
    let ghost mut installers: Seq<I> = seq![*installer];
    let ghost mut rngs: Seq<R> = seq![*rng];
    let mut results: Vec<Result<Action, PeerSkip>> = Vec::new();
    let mut i: usize = 0;
    while i < entries.len()
        invariant
            i <= entries@.len(),
            results@.len() == i,
            states.len() == i + 1,
            states[0] == *old(state),
            states.last() == *state,
            forall|j: int|
                0 <= j < i ==> #[trigger] peer_synced(
                    states[j],
                    states[j + 1],
                    (entries@[j].0, entries@[j].1),
                    entries@[j].2,
                    entries@[j].3,
                    exchanges@,
                    now,
                    rotation_interval,
                    results@[j],
                ),
            installers.len() == i + 1,
            rngs.len() == i + 1,
            installers[0] == *old(installer),
            rngs[0] == *old(rng),
            installers.last() == *installer,
            rngs.last() == *rng,
            forall|j: int|
                0 <= j < i && ((#[trigger] results@[j] matches Err(PeerSkip::NotDataPeer)) || (
                results@[j] matches Err(PeerSkip::Observe(_)))) ==> installers[j + 1]
                    == installers[j] && rngs[j + 1] == rngs[j],
        decreases entries@.len() - i,
    {
        let (id, is_server, advertised, counters) = entries[i];
        let ghost before = *state;
        let result = sync_peer(
            state,
            (id, is_server),
            advertised,
            counters,
            exchanges,
            now,
            rotation_interval,
            installer,
            rng,
            bridge,
        );
        proof {
            let next = states.push(*state);
            assert(next[i as int] == before);
            assert forall|j: int| 0 <= j < i + 1 implies #[trigger] peer_synced(
                next[j],
                next[j + 1],
                (entries@[j].0, entries@[j].1),
                entries@[j].2,
                entries@[j].3,
                exchanges@,
                now,
                rotation_interval,
                results@.push(result)[j],
            ) by {
                if j < i {
                    assert(next[j] == states[j] && next[j + 1] == states[j + 1]);
                    assert(results@.push(result)[j] == results@[j]);
                }
            }
            states = next;
            let next_installers = installers.push(*installer);
            let next_rngs = rngs.push(*rng);
            assert forall|j: int|
                0 <= j < i + 1 && ((#[trigger] results@.push(result)[j] matches Err(
                    PeerSkip::NotDataPeer,
                )) || (results@.push(result)[j] matches Err(PeerSkip::Observe(_))))
                implies next_installers[j + 1] == next_installers[j] && next_rngs[j + 1]
                == next_rngs[j] by {
                if j < i {
                    assert(results@.push(result)[j] == results@[j]);
                }
            }
            installers = next_installers;
            rngs = next_rngs;
        }
        results.push(result);
        i += 1;
    }
    results
}

/// Why a client refuses to sync.
#[derive(Clone, Copy, Debug, PartialEq, Eq, Structural)]
pub enum FetchRefusal {
    /// The interface is down and was not to be brought up.
    InterfaceDown,
    /// The server is unreachable and there is no cached directory.
    NoDirectory,
    /// The server answered with an error.
    ServerError,
}

/// How the directory fetch went.
#[derive(Clone, Copy, Debug, PartialEq, Eq, Structural)]
pub enum FetchOutcome {
    /// The server answered with its directory.
    Fetched,
    /// The server could not be reached.
    Unreachable,
    /// The server answered with an error.
    Failed,
}

/// What a sync cycle does before the directory is fetched.
#[derive(Clone, Copy, Debug, PartialEq, Eq, Structural)]
pub struct BootPlan {
    /// Restore the data-traffic gate from the saved PQ state before any
    /// peer gets a kernel entry.
    pub restore_gate: bool,
    /// Bring the interface up.
    pub bring_up: bool,
}

/// The start of a sync cycle: an interface that is down is brought up only
/// when asked, else the cycle is refused. Before it comes up, the traffic
/// gate is put back in place when PQ is enabled and PQ state is stored,
/// since nftables rules are lost when the host restarts.
pub fn boot_plan(interface_up: bool, bring_up: bool, pq_enabled: bool, pq_state_exists: bool) -> (r:
    Result<BootPlan, FetchRefusal>)
    ensures
        r == if interface_up {
            Ok::<BootPlan, FetchRefusal>(BootPlan { restore_gate: false, bring_up: false })
        } else if !bring_up {
            Err(FetchRefusal::InterfaceDown)
        } else {
            Ok(BootPlan { restore_gate: pq_enabled && pq_state_exists, bring_up: true })
        },
{
    if interface_up {
        Ok(BootPlan { restore_gate: false, bring_up: false })
    } else if !bring_up {
        Err(FetchRefusal::InterfaceDown)
    } else {
        Ok(BootPlan { restore_gate: pq_enabled && pq_state_exists, bring_up: true })
    }
}

/// Where the cycle's directory comes from, and whether the PQ exchange
/// runs, as (the directory is freshly fetched, the PQ exchange runs): a
/// fetched directory is used and the PQ exchange runs when
/// enabled; an unreachable server falls back to a non-empty cache, with
/// no PQ exchange; an empty cache or a server error refuses the cycle.
pub fn directory_source(outcome: FetchOutcome, cache_empty: bool, pq_enabled: bool) -> (r: Result<
    (bool, bool),
    FetchRefusal,
>)
    ensures
        r == match outcome {
            FetchOutcome::Fetched => Ok::<(bool, bool), FetchRefusal>((true, pq_enabled)),
            FetchOutcome::Unreachable => if cache_empty {
                Err(FetchRefusal::NoDirectory)
            } else {
                Ok((false, false))
            },
            FetchOutcome::Failed => Err(FetchRefusal::ServerError),
        },
{
    match outcome {
        FetchOutcome::Fetched => Ok((true, pq_enabled)),
        FetchOutcome::Unreachable => if cache_empty {
            Err(FetchRefusal::NoDirectory)
        } else {
            Ok((false, false))
        },
        FetchOutcome::Failed => Err(FetchRefusal::ServerError),
    }
}

/// Whether directory entry `j` is the first whose public key text is
/// `key_text`.
pub open spec fn first_entry(peers: Seq<(Vec<u8>, Element)>, key_text: Seq<u8>, j: int) -> bool {
    &&& 0 <= j < peers.len()
    &&& peers[j].0@ == key_text
    &&& forall|x: int| 0 <= x < j ==> (#[trigger] peers[x]).0@ != key_text
}

pub open spec fn same_element(a: Element, b: Element) -> bool {
    a.v4 == b.v4 && a.text@ == b.text@
}

fn find_entry_by_key(peers: &[(Vec<u8>, Element)], key_text: &[u8]) -> (r: Option<usize>)
    ensures
        match r {
            Some(j) => first_entry(peers@, key_text@, j as int),
            None => forall|x: int| 0 <= x < peers@.len() ==> (#[trigger] peers@[x]).0@ != key_text@,
        },
{
    let mut i: usize = 0;
    while i < peers.len()
        invariant
            i <= peers@.len(),
            forall|x: int| 0 <= x < i ==> (#[trigger] peers@[x]).0@ != key_text@,
        decreases peers@.len() - i,
    {
        if crate::codec::same_slice(peers[i].0.as_slice(), key_text) {
            return Some(i);
        }
        i += 1;
    }
    None
}

/// Element `e` is the address of the first directory entry that carries
/// the WireGuard key of some relationship's remote.
#[verifier::opaque]
pub open spec fn gated_address(
    rels: Map<u64, Relationship>,
    peers: Seq<(Vec<u8>, Element)>,
    e: Element,
) -> bool {
    exists|k: u64, j: int|
        #![trigger rels[k], peers[j]]
        rels.contains_key(k) && first_entry(peers, base64_text(rels[k].remote.wg_public_key@), j)
            && same_element(e, peers[j].1)
}

/// `out` holds an element like `e`.
#[verifier::opaque]
pub open spec fn holds_element(out: Seq<Element>, e: Element) -> bool {
    exists|x: int| 0 <= x < out.len() && same_element(#[trigger] out[x], e)
}

/// The addresses to keep gated for the known relationships, before any
/// peer gets a kernel entry again: for each relationship, the element of
/// the first directory entry (public key text, address) that carries its
/// remote's WireGuard key; relationships with no entry contribute nothing.
pub fn blocked_elements(state: &EndpointState, peers: &[(Vec<u8>, Element)]) -> (r: Vec<Element>)
    ensures
        r@.len() <= state.relationships@.len(),
        forall|i: int|
            0 <= i < r@.len() ==> gated_address(state.relationships@, peers@, #[trigger] r@[i]),
        forall|k: u64, j: int|
            state.relationships@.contains_key(k) && #[trigger] first_entry(
                peers@,
                base64_text(state.relationships@[k].remote.wg_public_key@),
                j,
            ) ==> holds_element(r@, peers@[j].1),
{
    let keys = crate::state::key_list(&state.relationships);
    let ghost rels = state.relationships@;
    let mut out: Vec<Element> = Vec::new();
    let mut i: usize = 0;
    proof {
        keys@.unique_seq_to_set();
    }
    while i < keys.len()
        invariant
            i <= keys@.len(),
            rels == state.relationships@,
            keys@.to_set() == rels.dom(),
            keys@.len() == rels.len(),
            out@.len() <= i,
            forall|x: int| 0 <= x < out@.len() ==> gated_address(rels, peers@, #[trigger] out@[x]),
            forall|y: int, j: int|
                0 <= y < i && #[trigger] first_entry(
                    peers@,
                    base64_text(rels[keys@[y]].remote.wg_public_key@),
                    j,
                ) ==> holds_element(out@, peers@[j].1),
        decreases keys@.len() - i,
    {
        let k = keys[i];
        proof {
            assert(keys@.to_set().contains(k));
        }
        let remote = match state.relationships.get(&k) {
            Some(r) => r.remote,
            None => {
                proof {
                    assert(false);
                }
                i += 1;
                continue;
            },
        };
        let key_text = crate::codec::base64_encode(&remote.wg_public_key.0);
        let ghost before = out@;
        match find_entry_by_key(peers, key_text.as_slice()) {
            Some(j) => {
                let element = Element { v4: peers[j].1.v4, text: peers[j].1.text.clone() };
                out.push(element);
                proof {
                    assert(gated_address(rels, peers@, element)) by {
                        reveal(gated_address);
                        assert(rels[k] == rels[k] && peers@[j as int] == peers@[j as int]);
                    }
                    assert forall|x: int| 0 <= x < out@.len() implies gated_address(
                        rels,
                        peers@,
                        #[trigger] out@[x],
                    ) by {
                        if x < before.len() {
                            assert(out@[x] == before[x]);
                        }
                    }
                    assert forall|y: int, j2: int|
                        0 <= y < i + 1 && #[trigger] first_entry(
                            peers@,
                            base64_text(rels[keys@[y]].remote.wg_public_key@),
                            j2,
                        ) implies holds_element(out@, peers@[j2].1) by {
                        reveal(holds_element);
                        if y < i {
                            let x = choose|x: int|
                                0 <= x < before.len() && same_element(#[trigger] before[x], peers@[j2].1);
                            assert(out@[x] == before[x]);
                        } else {
                            if j2 < j {
                                assert(peers@[j2].0@ != key_text@);
                            } else if j < j2 {
                                assert(peers@[j as int].0@ != key_text@);
                            }
                            assert(same_element(out@[out@.len() - 1], peers@[j2].1));
                        }
                    }
                }
            },
            None => {
                proof {
                    assert forall|y: int, j2: int|
                        0 <= y < i + 1 && #[trigger] first_entry(
                            peers@,
                            base64_text(rels[keys@[y]].remote.wg_public_key@),
                            j2,
                        ) implies holds_element(out@, peers@[j2].1) by {
                        if y == i {
                            assert(peers@[j2].0@ != key_text@);
                        }
                    }
                }
            },
        }
        i += 1;
    }
    proof {
        assert forall|k: u64, j: int|
            rels.contains_key(k) && #[trigger] first_entry(
                peers@,
                base64_text(rels[k].remote.wg_public_key@),
                j,
            ) implies holds_element(out@, peers@[j].1) by {
            assert(keys@.to_set().contains(k));
            let y = choose|y: int| 0 <= y < keys@.len() && keys@[y] == k;
            assert(first_entry(peers@, base64_text(rels[keys@[y]].remote.wg_public_key@), j));
        }
    }
    out
}

} // verus!

//! Key material types and the checks on public keys that need no library.
use vstd::prelude::*;

use crate::Error;
use subtle::ConstantTimeEq;

verus! {

/// Size of an ML-KEM-1024 encapsulation key.
pub const KEM_PUBLIC_LEN: usize = 1568;
/// ML-KEM's modulus q.
pub const KEM_Q: u16 = 3329;

/// The two 12-bit coefficients packed in chunk `k` of an encapsulation key.
pub open spec fn kem_pair(pk: Seq<u8>, k: int) -> (int, int) {
    let b0 = pk[3 * k] as int;
    let b1 = pk[3 * k + 1] as int;
    let b2 = pk[3 * k + 2] as int;
    (b0 + (b1 % 16) * 256, b1 / 16 + b2 * 16)
}

/// Every coefficient of the first 1536 bytes is below q (FIPS 203's
/// encapsulation-key modulus check).
pub open spec fn kem_coefficients_ok(pk: Seq<u8>) -> bool {
    forall|k: int|
        #![trigger kem_pair(pk, k)]
        0 <= k < 512 ==> kem_pair(pk, k).0 < KEM_Q && kem_pair(pk, k).1 < KEM_Q
}

pub open spec fn kem_check(pk: Seq<u8>) -> Result<(), Error> {
    if kem_coefficients_ok(pk) {
        Ok(())
    } else {
        Err(Error::Invalid)
    }
}

pub fn validate_kem(public: &[u8; 1568]) -> (r: Result<(), Error>)
    ensures
        r == kem_check(public@),
{
    let mut k: usize = 0;
    while k < 512
        invariant
            k <= 512,
            public@.len() == 1568,
            forall|j: int|
                #![trigger kem_pair(public@, j)]
                0 <= j < k ==> kem_pair(public@, j).0 < KEM_Q && kem_pair(public@, j).1 < KEM_Q,
        decreases 512 - k,
    {
        let b0 = public[3 * k] as u16;
        let b1 = public[3 * k + 1] as u16;
        let b2 = public[3 * k + 2] as u16;
        let a = b0 + (b1 % 16) * 256;
        let b = b1 / 16 + b2 * 16;
        assert(kem_pair(public@, k as int) == (a as int, b as int));
        if a >= KEM_Q || b >= KEM_Q {
            proof {
                assert(!kem_coefficients_ok(public@));
            }
            return Err(Error::Invalid);
        }
        k += 1;
    }
    Ok(())
}


/// Constant-time comparison of two byte strings.
///
/// Calls `subtle::ConstantTimeEq::ct_eq` on the two slices, which yields
/// true exactly when they have the same length and the same bytes.
#[verifier::external_body]
fn ct_equal(a: &[u8], b: &[u8]) -> (r: bool)
    ensures
        r == (a@ == b@),
{
    bool::from(a.ct_eq(b))
}

/// Fills `output` from the operating system's random source.
///
/// Calls `getrandom::fill`; what it writes is random, so the contract says
/// only that the length is kept.
#[verifier::external_body]
fn os_fill(output: &mut [u8]) -> (r: Result<(), Error>)
    ensures
        final(output)@.len() == old(output)@.len(),
{
    match getrandom::fill(output) {
        Ok(()) => Ok(()),
        Err(_) => Err(Error::Random),
    }
}

/// Secret key material of a fixed size. It has no Debug implementation.
#[derive(Clone, Copy)]
pub struct Secret<const N: usize>(pub [u8; N]);

impl<const N: usize> View for Secret<N> {
    type V = Seq<u8>;

    open spec fn view(&self) -> Seq<u8> {
        self.0@
    }
}

impl<const N: usize> Secret<N> {
    pub fn from_bytes(bytes: [u8; N]) -> (r: Secret<N>)
        ensures
            r.0 == bytes,
    {
        Secret(bytes)
    }

    /// Constant-time equality of the two secrets' bytes.
    pub fn same(&self, other: &Secret<N>) -> (r: bool)
        ensures
            r == (self@ == other@),
    {
        ct_equal(self.0.as_slice(), other.0.as_slice())
    }
}

/// All-zero bytes of length `n`.
pub open spec fn zeros(n: nat) -> Seq<u8> {
    Seq::new(n, |i: int| 0u8)
}

/// A source of random bytes. Implementations fill the whole buffer or fail.
pub trait Random {
    fn fill(&mut self, output: &mut [u8]) -> (r: Result<(), Error>)
        ensures
            final(output)@.len() == old(output)@.len(),
    ;
}

/// The operating system's random source.
pub struct SystemRandom;

impl Random for SystemRandom {
    fn fill(&mut self, output: &mut [u8]) -> (r: Result<(), Error>) {
        os_fill(output)
    }
}

/// A fresh random secret, or the source's error.
pub fn random<const N: usize, R: Random>(rng: &mut R) -> (r: Result<Secret<N>, Error>)
    ensures
        r matches Ok(s) ==> s@.len() == N,
{
    let mut secret = Secret::from_bytes([0u8; N]);
    rng.fill(&mut secret.0)?;
    Ok(secret)
}

/// The public halves of a hybrid ML-KEM-1024 + X448 key.
#[derive(Clone, Copy, Debug, PartialEq, Eq)]
pub struct HybridPublic {
    pub kem: [u8; 1568],
    pub x448: [u8; 56],
}

/// The private halves of a hybrid key.
#[derive(Clone, Copy)]
pub struct HybridSecret {
    pub kem: Secret<3168>,
    pub x448: Secret<56>,
}

/// The two shared secrets of one hybrid encapsulation.
#[derive(Clone, Copy)]
pub struct HybridShared {
    pub kem: Secret<32>,
    pub x448: Secret<56>,
}

impl HybridShared {
    pub fn same(&self, other: &HybridShared) -> (r: bool)
        ensures
            r == (self.kem@ == other.kem@ && self.x448@ == other.x448@),
    {
        let a = self.kem.same(&other.kem);
        let b = self.x448.same(&other.x448);
        a && b
    }
}

/// The secrets derived for one exchange: the PSK and the two directional
/// confirmation keys.
#[derive(Clone, Copy)]
pub struct Candidate {
    pub psk: Secret<32>,
    pub initiator_confirmation: Secret<32>,
    pub responder_confirmation: Secret<32>,
}

/// The native primitives the protocol is built on: hybrid ML-KEM-1024 +
/// X448 key encapsulation, SHA3-256, HMAC, HKDF and secp521r1 ECDSA.
/// Every operation may fail; nothing is assumed of what succeeds.
pub trait Bridge {
    fn hybrid_keygen(&self, seed: &Secret<64>) -> Result<(HybridPublic, HybridSecret), Error>;

    fn hybrid_public(&self, secret: &HybridSecret) -> Result<HybridPublic, Error>;

    fn x448_validate(&self, public: &[u8; 56]) -> Result<(), Error>;

    fn hybrid_encapsulate(&self, public: &HybridPublic) -> Result<([u8; 1624], HybridShared), Error>;

    fn hybrid_decapsulate(&self, ciphertext: &[u8; 1624], private: &HybridSecret) -> Result<
        HybridShared,
        Error,
    >;

    fn hash(&self, data: &[u8]) -> Result<[u8; 32], Error>;

    fn hmac(&self, key: &Secret<32>, data: &[u8]) -> Result<[u8; 32], Error>;

    fn hkdf(&self, ikm: &[u8; 120], salt: &[u8; 32], info: &[u8]) -> Result<Secret<32>, Error>;

    fn sign_public(&self, private: &Secret<66>) -> Result<[u8; 67], Error>;

    fn sign_validate(&self, public: &[u8; 67]) -> Result<(), Error>;

    fn sign(&self, private: &Secret<66>, data: &[u8]) -> Result<[u8; 132], Error>;

    fn verify(&self, public: &[u8; 67], signature: &[u8; 132], data: &[u8]) -> Result<(), Error>;
}

/// A fresh hybrid key pair, generated from a 64-byte random seed.
pub fn hybrid_keypair<R: Random, B: Bridge>(rng: &mut R, bridge: &B) -> (r: Result<
    (HybridPublic, HybridSecret),
    Error,
>)
    ensures
        r is Ok ==> exists|seed: &Secret<64>|
            #[trigger] call_ensures(B::hybrid_keygen, (bridge, seed), r) && seed@.len() == 64,
{
    let seed = random::<64, R>(rng)?;
    bridge.hybrid_keygen(&seed)
}

/// Encapsulates to `public` once its KEM key passes the modulus check; a
/// key that fails it is refused before the bridge sees it.
pub fn encapsulate<B: Bridge>(public: &HybridPublic, bridge: &B) -> (r: Result<
    ([u8; 1624], HybridShared),
    Error,
>)
    ensures
        kem_check(public.kem@) is Err ==> r == Err::<([u8; 1624], HybridShared), Error>(
            Error::Invalid,
        ),
        kem_check(public.kem@) is Ok ==> call_ensures(B::hybrid_encapsulate, (bridge, public), r),
{
    validate_kem(&public.kem)?;
    bridge.hybrid_encapsulate(public)
}

/// The HKDF input keying material: KEM secret, X448 secret, operator PSK.
pub fn derivation_key(kem: &Secret<32>, dh: &Secret<56>, operator: &Secret<32>) -> (r: [u8; 120])
    ensures
        r@ == kem@ + dh@ + operator@,
{
    let mut ikm = [0u8; 120];
    let mut i: usize = 0;
    while i < 120
        invariant
            i <= 120,
            ikm@.len() == 120,
            kem@.len() == 32,
            dh@.len() == 56,
            operator@.len() == 32,
            forall|j: int| 0 <= j < i ==> ikm@[j] == (kem@ + dh@ + operator@)[j],
        decreases 120 - i,
    {
        let b = if i < 32 {
            kem.0[i]
        } else if i < 88 {
            dh.0[i - 32]
        } else {
            operator.0[i - 88]
        };
        ikm[i] = b;
        i += 1;
    }
    proof {
        assert(ikm@ =~= kem@ + dh@ + operator@);
    }
    ikm
}

/// The labels of the three derived secrets.
pub open spec fn psk_label() -> Seq<u8> {
    seq![105u8, 110, 110, 101, 114, 110, 101, 116, 32, 112, 113, 45, 112, 115, 107, 32, 118, 49, 32, 112, 115, 107]
}

pub open spec fn confirm_label(initiator: bool) -> Seq<u8> {
    seq![105u8, 110, 110, 101, 114, 110, 101, 116, 32, 112, 113, 45, 112, 115, 107, 32, 118, 49, 32, 99, 111, 110, 102, 105, 114, 109, 32, if initiator { 105u8 } else { 114u8 }]
}

/// The HKDF info of a derived secret: its label followed by the salt.
pub fn expansion_info(label: &[u8], salt: &[u8; 32]) -> (r: Vec<u8>)
    ensures
        r@ == label@ + salt@,
{
    let mut info: Vec<u8> = Vec::new();
    let mut i: usize = 0;
    while i < label.len()
        invariant
            i <= label@.len(),
            info@ == label@.subrange(0, i as int),
        decreases label@.len() - i,
    {
        info.push(label[i]);
        i += 1;
    }
    let mut j: usize = 0;
    while j < 32
        invariant
            j <= 32,
            i == label@.len(),
            salt@.len() == 32,
            info@ == label@ + salt@.subrange(0, j as int),
        decreases 32 - j,
    {
        info.push(salt[j]);
        j += 1;
    }
    proof {
        assert(label@.subrange(0, label@.len() as int) =~= label@);
        assert(salt@.subrange(0, 32) =~= salt@);
    }
    info
}

fn label(kind: u8) -> (r: Vec<u8>)
    requires
        kind < 3,
    ensures
        r@ == if kind == 0 {
            psk_label()
        } else {
            confirm_label(kind == 1)
        },
{
    let r: Vec<u8> = if kind == 0 {
        vec![105u8, 110, 110, 101, 114, 110, 101, 116, 32, 112, 113, 45, 112, 115, 107, 32, 118, 49, 32, 112, 115, 107]
    } else if kind == 1 {
        vec![105u8, 110, 110, 101, 114, 110, 101, 116, 32, 112, 113, 45, 112, 115, 107, 32, 118, 49, 32, 99, 111, 110, 102, 105, 114, 109, 32, 105]
    } else {
        vec![105u8, 110, 110, 101, 114, 110, 101, 116, 32, 112, 113, 45, 112, 115, 107, 32, 118, 49, 32, 99, 111, 110, 102, 105, 114, 109, 32, 114]
    };
    proof {
        if kind == 0 {
            assert(r@ =~= psk_label());
        } else {
            assert(r@ =~= confirm_label(kind == 1));
        }
    }
    r
}

/// The candidate from the three HKDF outcomes, in the order they are
/// derived: the PSK, the initiator's confirmation key, the responder's;
/// the first failure is the outcome.
pub open spec fn candidate_outcome(
    psk: Result<Secret<32>, Error>,
    initiator_confirmation: Result<Secret<32>, Error>,
    responder_confirmation: Result<Secret<32>, Error>,
) -> Result<Candidate, Error> {
    match psk {
        Err(e) => Err(e),
        Ok(p) => match initiator_confirmation {
            Err(e) => Err(e),
            Ok(i) => match responder_confirmation {
                Err(e) => Err(e),
                Ok(c) => Ok(Candidate { psk: p, initiator_confirmation: i, responder_confirmation: c }),
            },
        },
    }
}

/// `out` is an outcome the bridge's hash may give for `data`: a call on
/// those bytes returned it.
pub open spec fn hashes_to<B: Bridge>(bridge: &B, data: Seq<u8>, out: Result<[u8; 32], Error>) -> bool {
    exists|d: &[u8]| #[trigger] call_ensures(B::hash, (bridge, d), out) && d@ == data
}

/// `out` is an outcome the bridge's HMAC may give for `key` over `data`.
pub open spec fn tags_to<B: Bridge>(bridge: &B, key: Seq<u8>, data: Seq<u8>, out: Result<[u8; 32], Error>) -> bool {
    exists|k: &Secret<32>, d: &[u8]|
        #[trigger] call_ensures(B::hmac, (bridge, k, d), out) && k@ == key && d@ == data
}

/// `out` is an outcome the bridge's HKDF may give for these inputs.
pub open spec fn expands_to<B: Bridge>(
    bridge: &B,
    ikm: Seq<u8>,
    salt: Seq<u8>,
    info: Seq<u8>,
    out: Result<Secret<32>, Error>,
) -> bool {
    exists|k: &[u8; 120], s: &[u8; 32], i: &[u8]|
        #[trigger] call_ensures(B::hkdf, (bridge, k, s, i), out) && k@ == ikm && s@ == salt && i@
            == info
}

/// `out` is an outcome the bridge's signing may give for `private` over
/// `data`.
pub open spec fn signs_to<B: Bridge>(bridge: &B, private: Seq<u8>, data: Seq<u8>, out: Result<[u8; 132], Error>) -> bool {
    exists|k: &Secret<66>, d: &[u8]|
        #[trigger] call_ensures(B::sign, (bridge, k, d), out) && k@ == private && d@ == data
}

/// `out` is an outcome the bridge's signature check may give for
/// `signature` over `data` under `public`.
pub open spec fn verifies_to<B: Bridge>(
    bridge: &B,
    public: Seq<u8>,
    signature: Seq<u8>,
    data: Seq<u8>,
    out: Result<(), Error>,
) -> bool {
    exists|p: &[u8; 67], s: &[u8; 132], d: &[u8]|
        #[trigger] call_ensures(B::verify, (bridge, p, s, d), out) && p@ == public && s@ == signature
            && d@ == data
}

/// The bridge accepted `public` as an X448 public key.
pub open spec fn accepts_x448<B: Bridge>(bridge: &B, public: Seq<u8>) -> bool {
    exists|p: &[u8; 56]|
        #[trigger] call_ensures(B::x448_validate, (bridge, p), Ok::<(), Error>(())) && p@ == public
}

/// The bridge accepted `public` as a signing public key.
pub open spec fn accepts_signing_key<B: Bridge>(bridge: &B, public: Seq<u8>) -> bool {
    exists|p: &[u8; 67]|
        #[trigger] call_ensures(B::sign_validate, (bridge, p), Ok::<(), Error>(())) && p@ == public
}

/// The outcomes of deriving from input keying material `ikm` and
/// `transcript`: the transcript is hashed into the salt (a failure is the
/// outcome), then HKDF runs on `ikm` and the salt with the PSK label, the
/// initiator's confirmation label and the responder's, each followed by the
/// salt, stopping at the first failure.
pub open spec fn derived<B: Bridge>(bridge: &B, ikm: Seq<u8>, transcript: Seq<u8>, r: Result<Candidate, Error>) -> bool {
    exists|h: Result<[u8; 32], Error>|
        #[trigger] hashes_to(bridge, transcript, h) && match h {
            Err(e) => r == Err::<Candidate, Error>(e),
            Ok(salt) => exists|
                psk: Result<Secret<32>, Error>,
                initiator_confirmation: Result<Secret<32>, Error>,
                responder_confirmation: Result<Secret<32>, Error>,
            |
                #![trigger candidate_outcome(psk, initiator_confirmation, responder_confirmation)]
                expands_to(bridge, ikm, salt@, psk_label() + salt@, psk) && (psk is Ok
                    ==> expands_to(
                    bridge,
                    ikm,
                    salt@,
                    confirm_label(true) + salt@,
                    initiator_confirmation,
                )) && (psk is Ok && initiator_confirmation is Ok ==> expands_to(
                    bridge,
                    ikm,
                    salt@,
                    confirm_label(false) + salt@,
                    responder_confirmation,
                )) && r == candidate_outcome(
                    psk,
                    initiator_confirmation,
                    responder_confirmation,
                ),
        }
}

/// The bridge's hash gives one outcome per input.
pub open spec fn hash_is_function<B: Bridge>(bridge: &B) -> bool {
    forall|a: &[u8], b: &[u8], x: Result<[u8; 32], Error>, y: Result<[u8; 32], Error>|
        #![trigger call_ensures(B::hash, (bridge, a), x), call_ensures(B::hash, (bridge, b), y)]
        call_ensures(B::hash, (bridge, a), x) && call_ensures(B::hash, (bridge, b), y) && a@ == b@
            ==> x == y
}

/// The bridge's HMAC gives one outcome per input.
pub open spec fn hmac_is_function<B: Bridge>(bridge: &B) -> bool {
    forall|
        k1: &Secret<32>,
        d1: &[u8],
        x: Result<[u8; 32], Error>,
        k2: &Secret<32>,
        d2: &[u8],
        y: Result<[u8; 32], Error>,
    |
        #![trigger call_ensures(B::hmac, (bridge, k1, d1), x), call_ensures(B::hmac, (bridge, k2, d2), y)]
        call_ensures(B::hmac, (bridge, k1, d1), x) && call_ensures(B::hmac, (bridge, k2, d2), y)
            && k1@ == k2@ && d1@ == d2@ ==> x == y
}

/// The bridge's HKDF gives one outcome per input.
pub open spec fn hkdf_is_function<B: Bridge>(bridge: &B) -> bool {
    forall|
        k1: &[u8; 120],
        s1: &[u8; 32],
        i1: &[u8],
        x: Result<Secret<32>, Error>,
        k2: &[u8; 120],
        s2: &[u8; 32],
        i2: &[u8],
        y: Result<Secret<32>, Error>,
    |
        #![trigger call_ensures(B::hkdf, (bridge, k1, s1, i1), x), call_ensures(B::hkdf, (bridge, k2, s2, i2), y)]
        call_ensures(B::hkdf, (bridge, k1, s1, i1), x) && call_ensures(B::hkdf, (bridge, k2, s2, i2), y)
            && k1@ == k2@ && s1@ == s2@ && i1@ == i2@ ==> x == y
}

/// Where the bridge's hash gives one outcome per input, two outcomes for
/// the same bytes are one.
pub proof fn lemma_one_hash<B: Bridge>(bridge: &B, data: Seq<u8>, x: Result<[u8; 32], Error>, y: Result<[u8; 32], Error>)
    requires
        hash_is_function(bridge),
        hashes_to(bridge, data, x),
        hashes_to(bridge, data, y),
    ensures
        x == y,
{
    let a = choose|d: &[u8]| #[trigger] call_ensures(B::hash, (bridge, d), x) && d@ == data;
    let b = choose|d: &[u8]| #[trigger] call_ensures(B::hash, (bridge, d), y) && d@ == data;
    assert(call_ensures(B::hash, (bridge, a), x) && call_ensures(B::hash, (bridge, b), y));
}

proof fn lemma_one_expansion<B: Bridge>(
    bridge: &B,
    ikm: Seq<u8>,
    salt: Seq<u8>,
    info: Seq<u8>,
    x: Result<Secret<32>, Error>,
    y: Result<Secret<32>, Error>,
)
    requires
        hkdf_is_function(bridge),
        expands_to(bridge, ikm, salt, info, x),
        expands_to(bridge, ikm, salt, info, y),
    ensures
        x == y,
{
    let (k1, s1, i1) = choose|k: &[u8; 120], s: &[u8; 32], i: &[u8]|
        #[trigger] call_ensures(B::hkdf, (bridge, k, s, i), x) && k@ == ikm && s@ == salt && i@
            == info;
    let (k2, s2, i2) = choose|k: &[u8; 120], s: &[u8; 32], i: &[u8]|
        #[trigger] call_ensures(B::hkdf, (bridge, k, s, i), y) && k@ == ikm && s@ == salt && i@
            == info;
    assert(call_ensures(B::hkdf, (bridge, k1, s1, i1), x) && call_ensures(
        B::hkdf,
        (bridge, k2, s2, i2),
        y,
    ));
}

/// Where the bridge's hash and HKDF give one outcome per input, a
/// derivation's outcome is determined by its input keying material and
/// transcript.
pub proof fn lemma_derivation_is_determined<B: Bridge>(
    bridge: &B,
    ikm: Seq<u8>,
    transcript: Seq<u8>,
    r1: Result<Candidate, Error>,
    r2: Result<Candidate, Error>,
)
    requires
        hash_is_function(bridge),
        hkdf_is_function(bridge),
        derived(bridge, ikm, transcript, r1),
        derived(bridge, ikm, transcript, r2),
    ensures
        r1 == r2,
{
    let h1 = choose|h: Result<[u8; 32], Error>|
        #[trigger] hashes_to(bridge, transcript, h) && match h {
            Err(e) => r1 == Err::<Candidate, Error>(e),
            Ok(salt) => exists|
                psk: Result<Secret<32>, Error>,
                initiator_confirmation: Result<Secret<32>, Error>,
                responder_confirmation: Result<Secret<32>, Error>,
            |
                #![trigger candidate_outcome(psk, initiator_confirmation, responder_confirmation)]
                expands_to(bridge, ikm, salt@, psk_label() + salt@, psk) && (psk is Ok
                    ==> expands_to(
                    bridge,
                    ikm,
                    salt@,
                    confirm_label(true) + salt@,
                    initiator_confirmation,
                )) && (psk is Ok && initiator_confirmation is Ok ==> expands_to(
                    bridge,
                    ikm,
                    salt@,
                    confirm_label(false) + salt@,
                    responder_confirmation,
                )) && r1 == candidate_outcome(psk, initiator_confirmation, responder_confirmation),
        };
    let h2 = choose|h: Result<[u8; 32], Error>|
        #[trigger] hashes_to(bridge, transcript, h) && match h {
            Err(e) => r2 == Err::<Candidate, Error>(e),
            Ok(salt) => exists|
                psk: Result<Secret<32>, Error>,
                initiator_confirmation: Result<Secret<32>, Error>,
                responder_confirmation: Result<Secret<32>, Error>,
            |
                #![trigger candidate_outcome(psk, initiator_confirmation, responder_confirmation)]
                expands_to(bridge, ikm, salt@, psk_label() + salt@, psk) && (psk is Ok
                    ==> expands_to(
                    bridge,
                    ikm,
                    salt@,
                    confirm_label(true) + salt@,
                    initiator_confirmation,
                )) && (psk is Ok && initiator_confirmation is Ok ==> expands_to(
                    bridge,
                    ikm,
                    salt@,
                    confirm_label(false) + salt@,
                    responder_confirmation,
                )) && r2 == candidate_outcome(psk, initiator_confirmation, responder_confirmation),
        };
    lemma_one_hash(bridge, transcript, h1, h2);
    if let Ok(salt) = h1 {
        let (p1, i1, c1) = choose|
            psk: Result<Secret<32>, Error>,
            initiator_confirmation: Result<Secret<32>, Error>,
            responder_confirmation: Result<Secret<32>, Error>,
        |
            #![trigger candidate_outcome(psk, initiator_confirmation, responder_confirmation)]
            expands_to(bridge, ikm, salt@, psk_label() + salt@, psk) && (psk is Ok ==> expands_to(
                bridge,
                ikm,
                salt@,
                confirm_label(true) + salt@,
                initiator_confirmation,
            )) && (psk is Ok && initiator_confirmation is Ok ==> expands_to(
                bridge,
                ikm,
                salt@,
                confirm_label(false) + salt@,
                responder_confirmation,
            )) && r1 == candidate_outcome(psk, initiator_confirmation, responder_confirmation);
        let (p2, i2, c2) = choose|
            psk: Result<Secret<32>, Error>,
            initiator_confirmation: Result<Secret<32>, Error>,
            responder_confirmation: Result<Secret<32>, Error>,
        |
            #![trigger candidate_outcome(psk, initiator_confirmation, responder_confirmation)]
            expands_to(bridge, ikm, salt@, psk_label() + salt@, psk) && (psk is Ok ==> expands_to(
                bridge,
                ikm,
                salt@,
                confirm_label(true) + salt@,
                initiator_confirmation,
            )) && (psk is Ok && initiator_confirmation is Ok ==> expands_to(
                bridge,
                ikm,
                salt@,
                confirm_label(false) + salt@,
                responder_confirmation,
            )) && r2 == candidate_outcome(psk, initiator_confirmation, responder_confirmation);
        lemma_one_expansion(bridge, ikm, salt@, psk_label() + salt@, p1, p2);
        if p1 is Ok {
            lemma_one_expansion(bridge, ikm, salt@, confirm_label(true) + salt@, i1, i2);
            if i1 is Ok {
                lemma_one_expansion(bridge, ikm, salt@, confirm_label(false) + salt@, c1, c2);
            }
        }
    }
}

/// Assembles the candidate from the three HKDF outcomes; see
/// `candidate_outcome`.
pub fn candidate_given(
    psk: Result<Secret<32>, Error>,
    initiator_confirmation: Result<Secret<32>, Error>,
    responder_confirmation: Result<Secret<32>, Error>,
) -> (r: Result<Candidate, Error>)
    ensures
        r == candidate_outcome(psk, initiator_confirmation, responder_confirmation),
{
    let psk = psk?;
    let initiator_confirmation = initiator_confirmation?;
    let responder_confirmation = responder_confirmation?;
    Ok(Candidate { psk, initiator_confirmation, responder_confirmation })
}

/// The HKDF inputs of the three derived secrets: the input keying material
/// of `derivation_key`, and the info of the PSK, the initiator's
/// confirmation key and the responder's, each its label followed by the
/// transcript hash `salt`.
pub fn expansion_inputs(kem: &Secret<32>, dh: &Secret<56>, operator: &Secret<32>, salt: &[u8; 32]) -> (r: (
    [u8; 120],
    Vec<u8>,
    Vec<u8>,
    Vec<u8>,
))
    ensures
        r.0@ == kem@ + dh@ + operator@,
        r.1@ == psk_label() + salt@,
        r.2@ == confirm_label(true) + salt@,
        r.3@ == confirm_label(false) + salt@,
{
    let ikm = derivation_key(kem, dh, operator);
    let psk_info = expansion_info(label(0).as_slice(), salt);
    let initiator_info = expansion_info(label(1).as_slice(), salt);
    let responder_info = expansion_info(label(2).as_slice(), salt);
    (ikm, psk_info, initiator_info, responder_info)
}

/// Derives the PSK and both confirmation keys from the two shared secrets,
/// the operator PSK and the transcript: the bridge hashes the transcript
/// into the salt, then runs HKDF on `expansion_inputs` once per label, in
/// the order PSK, initiator confirmation, responder confirmation, stopping
/// at the first failure; `candidate_given` assembles the outcome.
pub fn derive<B: Bridge>(
    kem: &Secret<32>,
    dh: &Secret<56>,
    operator: &Secret<32>,
    transcript: &[u8],
    bridge: &B,
) -> (r: Result<Candidate, Error>)
    ensures
        derived(bridge, kem@ + dh@ + operator@, transcript@, r),
{
    let hashed = bridge.hash(transcript);
    assert(hashes_to(bridge, transcript@, hashed));
    let salt = match hashed {
        Ok(h) => h,
        Err(e) => {
            return Err(e);
        },
    };
    let (ikm, psk_info, initiator_info, responder_info) = expansion_inputs(kem, dh, operator, &salt);
    let psk = bridge.hkdf(&ikm, &salt, psk_info.as_slice());
    assert(expands_to(bridge, ikm@, salt@, psk_label() + salt@, psk));
    if psk.is_err() {
        let r = candidate_given(psk, Err(Error::Crypto), Err(Error::Crypto));
        assert(r == candidate_outcome(psk, Err(Error::Crypto), Err(Error::Crypto)));
        return r;
    }
    let initiator_confirmation = bridge.hkdf(&ikm, &salt, initiator_info.as_slice());
    assert(expands_to(bridge, ikm@, salt@, confirm_label(true) + salt@, initiator_confirmation));
    if initiator_confirmation.is_err() {
        let r = candidate_given(psk, initiator_confirmation, Err(Error::Crypto));
        assert(r == candidate_outcome(psk, initiator_confirmation, Err(Error::Crypto)));
        return r;
    }
    let responder_confirmation = bridge.hkdf(&ikm, &salt, responder_info.as_slice());
    assert(expands_to(bridge, ikm@, salt@, confirm_label(false) + salt@, responder_confirmation));
    let r = candidate_given(psk, initiator_confirmation, responder_confirmation);
    assert(r == candidate_outcome(psk, initiator_confirmation, responder_confirmation));
    r
}

/// Draws signing keys until one is accepted: each candidate is 66 random
/// bytes with all but the lowest bit of the first byte cleared (so below
/// the group order's bit length); after 128 refusals the source is deemed
/// faulty.
pub fn signing_keypair<R: Random, B: Bridge>(rng: &mut R, bridge: &B) -> (r: Result<
    ([u8; 67], Secret<66>),
    Error,
>)
    ensures
        r matches Ok((public, private)) ==> private@[0] <= 1 && call_ensures(
            B::sign_public,
            (bridge, &private),
            Ok::<[u8; 67], Error>(public),
        ),
{
    let mut attempt: u32 = 0;
    while attempt < 128
        invariant
            attempt <= 128,
        decreases 128 - attempt,
    {
        let mut private = random::<66, R>(rng)?;
        let first: u8 = private.0[0];
        assert(first & 1u8 <= 1u8) by (bit_vector);
        private.0[0] = first & 1u8;
        let derived = bridge.sign_public(&private);
        if let Ok(public) = derived {
            return Ok((public, private));
        }
        attempt += 1;
    }
    Err(Error::Random)
}

} // verus!

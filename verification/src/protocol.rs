//! Canonical protocol v1 values and the pure exchange transition model.
use vstd::prelude::*;

use crate::codec::{
    base64_encode, base64_text, canonical_base64, canonical_decimal, decimal, decode_canonical,
    lemma_decimal_prefix, parse_decimal,
};
use crate::crypto::{
    accepts_signing_key, accepts_x448, hashes_to, hmac_is_function, signs_to, tags_to, verifies_to,
    Bridge, Candidate, Secret,
};
use crate::Error;

verus! {

/// Largest accepted request body, in bytes.
pub const REQUEST_LIMIT: usize = 8192;
/// Seconds a proposed exchange may wait for commitment.
pub const PREPARE_TTL: u64 = 600;
/// Largest identifier value (`i64::MAX`).
pub const NUMBER_MAX: u64 = 0x7fff_ffff_ffff_ffff;

/// Whether `v` is a valid positive identifier.
pub open spec fn valid_number(v: u64) -> bool {
    1 <= v <= NUMBER_MAX
}

/// A positive identifier or revision that fits in `i64`.
#[derive(Clone, Copy, Debug, PartialEq, Eq, Hash, PartialOrd, Ord)]
pub struct Number(u64);

impl View for Number {
    type V = u64;

    closed spec fn view(&self) -> u64 {
        self.0
    }
}

impl Number {
    #[verifier::type_invariant]
    spec fn well_formed(self) -> bool {
        valid_number(self.0)
    }

    /// Accepts exactly the values in `1..=i64::MAX`.
    pub fn new(value: u64) -> (r: Result<Number, Error>)
        ensures
            match r {
                Ok(n) => valid_number(value) && n@ == value,
                Err(e) => !valid_number(value) && e == Error::Invalid,
            },
    {
        if value == 0 || value > NUMBER_MAX {
            Err(Error::Invalid)
        } else {
            Ok(Number(value))
        }
    }

    pub fn get(self) -> (v: u64)
        ensures
            v == self@,
            valid_number(v),
    {
        proof {
            use_type_invariant(&self);
        }
        self.0
    }

    /// Accepts only a canonical decimal (digits, no leading zero) in
    /// `1..=i64::MAX`.
    pub fn parse(text: &[u8]) -> (r: Result<Number, Error>)
        ensures
            match r {
                Ok(n) => canonical_decimal(text@) && decimal(text@) <= NUMBER_MAX && n@
                    == decimal(text@),
                Err(e) => (!canonical_decimal(text@) || decimal(text@) > NUMBER_MAX) && e
                    == Error::Invalid,
            },
    {
        match parse_decimal(text, NUMBER_MAX) {
            None => Err(Error::Invalid),
            Some(v) => {
                proof {
                    lemma_decimal_prefix(text@, 1);
                    assert(text@.subrange(0, 1).drop_last() =~= Seq::<u8>::empty());
                }
                Number::new(v)
            },
        }
    }

    /// The successor, if it is still a valid identifier.
    pub fn next(self) -> (r: Result<Number, Error>)
        ensures
            match r {
                Ok(n) => self@ < NUMBER_MAX && n@ == self@ + 1,
                Err(e) => self@ == NUMBER_MAX && e == Error::Invalid,
            },
    {
        let v = self.get();
        if v == NUMBER_MAX {
            Err(Error::Invalid)
        } else {
            Number::new(v + 1)
        }
    }
}


/// Numbers with the same value are the same number.
pub proof fn lemma_number_view_injective(a: Number, b: Number)
    ensures
        a@ == b@ <==> a == b,
{
}

/// A fixed-size binary value; on the wire it is canonical base64.
#[derive(Clone, Copy, Debug, PartialEq, Eq, Hash, PartialOrd, Ord)]
pub struct Binary<const N: usize>(pub [u8; N]);

impl<const N: usize> View for Binary<N> {
    type V = Seq<u8>;

    open spec fn view(&self) -> Seq<u8> {
        self.0@
    }
}

impl<const N: usize> Binary<N> {
    /// Accepts only the canonical padded base64 text of exactly `N` bytes.
    pub fn decode_text(text: &[u8]) -> (r: Result<Binary<N>, Error>)
        ensures
            match r {
                Ok(b) => canonical_base64(text@, N as nat) == Some(b@),
                Err(e) => canonical_base64(text@, N as nat) is None && e == Error::Invalid,
            },
    {
        let bytes = match decode_canonical(text, N) {
            Some(bytes) => bytes,
            None => return Err(Error::Invalid),
        };
        let mut out = [0u8; N];
        let mut i: usize = 0;
        while i < N
            invariant
                i <= N,
                out@.len() == N,
                bytes@.len() == N,
                forall|j: int| 0 <= j < i ==> out@[j] == bytes@[j],
            decreases N - i,
        {
            out[i] = bytes[i];
            i += 1;
        }
        proof {
            assert(out@ =~= bytes@);
        }
        Ok(Binary(out))
    }

    /// The value's padded base64 text.
    pub fn encode_text(&self) -> (r: Vec<u8>)
        requires
            N <= usize::MAX / 4 * 3,
        ensures
            r@ == base64_text(self@),
            canonical_base64(r@, N as nat) == Some(self@),
    {
        base64_encode(self.0.as_slice())
    }
}

/// Byte-wise equality of two arrays of one size.
pub fn same_bytes<const N: usize>(a: &[u8; N], b: &[u8; N]) -> (r: bool)
    ensures
        r == (a@ == b@),
        r == (*a == *b),
{
    let mut i: usize = 0;
    while i < N
        invariant
            i <= N,
            a@.len() == N,
            b@.len() == N,
            forall|j: int| 0 <= j < i ==> a@[j] == b@[j],
        decreases N - i,
    {
        if a[i] != b[i] {
            return false;
        }
        i += 1;
    }
    proof {
        assert(a@ =~= b@);
        assert(*a =~= *b);
    }
    true
}

/// Appends `bytes` to `out`.
pub fn append_bytes(out: &mut Vec<u8>, bytes: &[u8])
    ensures
        final(out)@ == old(out)@ + bytes@,
{
    let mut i: usize = 0;
    while i < bytes.len()
        invariant
            i <= bytes@.len(),
            out@ == old(out)@ + bytes@.subrange(0, i as int),
        decreases bytes@.len() - i,
    {
        out.push(bytes[i]);
        i += 1;
        proof {
            assert(out@ =~= old(out)@ + bytes@.subrange(0, i as int));
        }
    }
    proof {
        assert(bytes@.subrange(0, bytes@.len() as int) =~= bytes@);
    }
}

/// The big-endian encoding of a `u64`.
pub open spec fn be_bytes(v: u64) -> Seq<u8> {
    seq![
        (v >> 56u64) as u8,
        (v >> 48u64) as u8,
        (v >> 40u64) as u8,
        (v >> 32u64) as u8,
        (v >> 24u64) as u8,
        (v >> 16u64) as u8,
        (v >> 8u64) as u8,
        v as u8,
    ]
}

pub fn to_be_bytes(v: u64) -> (r: [u8; 8])
    ensures
        r@ == be_bytes(v),
{
    let r = [
        (v >> 56u64) as u8,
        (v >> 48u64) as u8,
        (v >> 40u64) as u8,
        (v >> 32u64) as u8,
        (v >> 24u64) as u8,
        (v >> 16u64) as u8,
        (v >> 8u64) as u8,
        v as u8,
    ];
    proof {
        assert(r@ =~= be_bytes(v));
    }
    r
}

/// A peer's public key bundle.
#[derive(Clone, Copy, Debug, PartialEq, Eq)]
pub struct Bundle {
    pub bundle_id: Binary<16>,
    pub bundle_revision: Number,
    pub wg_public_key: Binary<32>,
    pub pq_kem_public_key: Binary<1568>,
    pub pq_x448_public_key: Binary<56>,
    pub pq_sig_public_key: Binary<67>,
}

/// The canonical byte encoding of a bundle (1747 bytes).
pub open spec fn bundle_bytes(b: Bundle) -> Seq<u8> {
    b.bundle_id@ + be_bytes(b.bundle_revision@) + b.wg_public_key@ + b.pq_kem_public_key@
        + b.pq_x448_public_key@ + b.pq_sig_public_key@
}

/// Which of two results comes first: the first error, else success.
pub open spec fn first_error(a: Result<(), Error>, b: Result<(), Error>) -> Result<(), Error> {
    match a {
        Err(e) => Err(e),
        Ok(()) => b,
    }
}

/// The outcome of validating bundle `b` when the X448 key check gives
/// `x448_check` and the signing key check gives `signing_check`.
pub open spec fn bundle_check(b: Bundle, x448_check: Result<(), Error>, signing_check: Result<(), Error>) -> Result<(), Error> {
    first_error(crate::crypto::kem_check(b.pq_kem_public_key@), first_error(x448_check, signing_check))
}

/// The outcome of validating transcript `t` given the outcomes of
/// validating its two bundles and its ephemeral key.
pub open spec fn transcript_check(
    t: Transcript,
    initiator_check: Result<(), Error>,
    responder_check: Result<(), Error>,
    ephemeral_check: Result<(), Error>,
) -> Result<(), Error> {
    if t.initiator_id@ >= t.responder_id@ {
        Err(Error::Invalid)
    } else {
        first_error(initiator_check, first_error(responder_check, ephemeral_check))
    }
}

impl Bundle {
    pub fn same(&self, other: &Bundle) -> (r: bool)
        ensures
            r == (*self == *other),
    {
        let a = same_bytes(&self.bundle_id.0, &other.bundle_id.0);
        let b = self.bundle_revision.get() == other.bundle_revision.get();
        let c = same_bytes(&self.wg_public_key.0, &other.wg_public_key.0);
        let d = same_bytes(&self.pq_kem_public_key.0, &other.pq_kem_public_key.0);
        let e = same_bytes(&self.pq_x448_public_key.0, &other.pq_x448_public_key.0);
        let f = same_bytes(&self.pq_sig_public_key.0, &other.pq_sig_public_key.0);
        a && b && c && d && e && f
    }

    /// Checks the KEM key's coefficients here; `x448_check` and
    /// `signing_check` are the outcomes of validating the X448 and signing
    /// public keys of this bundle.
    pub fn validate_given(&self, x448_check: Result<(), Error>, signing_check: Result<(), Error>) -> (r:
        Result<(), Error>)
        ensures
            r == first_error(
                crate::crypto::kem_check(self.pq_kem_public_key@),
                first_error(x448_check, signing_check),
            ),
    {
        crate::crypto::validate_kem(&self.pq_kem_public_key.0)?;
        x448_check?;
        signing_check
    }

    /// Checks the KEM key's coefficients, then has the bridge validate the
    /// X448 key and the signing key: the outcome is `validate_given` of
    /// the bridge's two answers.
    pub fn validate<B: Bridge>(&self, bridge: &B) -> (r: Result<(), Error>)
        ensures
            exists|x448_check: Result<(), Error>, signing_check: Result<(), Error>|
                r == bundle_check(*self, x448_check, signing_check),
            crate::crypto::kem_check(self.pq_kem_public_key@) is Err ==> r == Err::<(), Error>(
                Error::Invalid,
            ),
            // Success means the bridge accepted the X448 and signing keys.
            r is Ok ==> accepts_x448(bridge, self.pq_x448_public_key@) && accepts_signing_key(
                bridge,
                self.pq_sig_public_key@,
            ),
    {
        if let Err(e) = crate::crypto::validate_kem(&self.pq_kem_public_key.0) {
            assert(Err::<(), Error>(e) == bundle_check(*self, Ok(()), Ok(())));
            return Err(e);
        }
        let x448_check = bridge.x448_validate(&self.pq_x448_public_key.0);
        if x448_check.is_err() {
            let r = self.validate_given(x448_check, Ok(()));
            assert(r == bundle_check(*self, x448_check, Ok(())));
            return r;
        }
        let signing_check = bridge.sign_validate(&self.pq_sig_public_key.0);
        let r = self.validate_given(x448_check, signing_check);
        assert(r == bundle_check(*self, x448_check, signing_check));
        proof {
            if r is Ok {
                assert(x448_check == Ok::<(), Error>(x448_check->Ok_0));
                assert(signing_check == Ok::<(), Error>(signing_check->Ok_0));
            }
        }
        r
    }

    pub fn encode(&self) -> (r: Vec<u8>)
        ensures
            r@ == bundle_bytes(*self),
            r@.len() == 1747,
    {
        let mut out: Vec<u8> = Vec::with_capacity(1747);
        append_bytes(&mut out, &self.bundle_id.0);
        let revision = to_be_bytes(self.bundle_revision.get());
        append_bytes(&mut out, &revision);
        append_bytes(&mut out, &self.wg_public_key.0);
        append_bytes(&mut out, &self.pq_kem_public_key.0);
        append_bytes(&mut out, &self.pq_x448_public_key.0);
        append_bytes(&mut out, &self.pq_sig_public_key.0);
        proof {
            assert(out@ =~= bundle_bytes(*self));
        }
        out
    }
}


/// Label that opens every transcript encoding.
pub open spec fn transcript_label() -> Seq<u8> {
    seq![105u8, 110, 110, 101, 114, 110, 101, 116, 32, 112, 113, 45, 112, 115, 107, 32, 118, 49, 32, 116, 114, 97, 110, 115, 99, 114, 105, 112, 116]
}

/// Label that opens every message envelope.
pub open spec fn message_label() -> Seq<u8> {
    seq![105u8, 110, 110, 101, 114, 110, 101, 116, 32, 112, 113, 45, 112, 115, 107, 32, 118, 49, 32, 109, 101, 115, 115, 97, 103, 101]
}

fn label_bytes(transcript: bool) -> (r: Vec<u8>)
    ensures
        r@ == if transcript { transcript_label() } else { message_label() },
{
    let mut out: Vec<u8> = Vec::new();
    let common: [u8; 19] = [105u8, 110, 110, 101, 114, 110, 101, 116, 32, 112, 113, 45, 112, 115, 107, 32, 118, 49, 32];
    append_bytes(&mut out, &common);
    if transcript {
        let tail: [u8; 10] = [116u8, 114, 97, 110, 115, 99, 114, 105, 112, 116];
        append_bytes(&mut out, &tail);
        proof {
            assert(out@ =~= transcript_label());
        }
    } else {
        let tail: [u8; 7] = [109u8, 101, 115, 115, 97, 103, 101];
        append_bytes(&mut out, &tail);
        proof {
            assert(out@ =~= message_label());
        }
    }
    out
}

/// Everything an exchange's candidate secrets are bound to.
#[derive(Clone, Copy, Debug, PartialEq, Eq)]
pub struct Transcript {
    pub network_id: Binary<16>,
    pub initiator_id: Number,
    pub responder_id: Number,
    pub initiator: Bundle,
    pub responder: Bundle,
    pub sequence: Number,
    pub exchange_id: Binary<16>,
    pub operator_psk_id: Binary<16>,
    /// ML-KEM ciphertext followed by the ephemeral X448 public key.
    pub ciphertext: Binary<1624>,
}

pub open spec fn transcript_bytes(t: Transcript) -> Seq<u8> {
    transcript_label() + seq![1u8] + t.network_id@ + be_bytes(t.initiator_id@) + be_bytes(
        t.responder_id@,
    ) + bundle_bytes(t.initiator) + bundle_bytes(t.responder) + be_bytes(t.sequence@)
        + t.exchange_id@ + t.operator_psk_id@ + t.ciphertext@
}

impl Transcript {
    /// The ephemeral X448 public key at the end of the ciphertext.
    pub fn ephemeral_key(&self) -> (r: [u8; 56])
        ensures
            r@ == self.ciphertext@.subrange(1568, 1624),
    {
        let mut r = [0u8; 56];
        let mut i: usize = 0;
        while i < 56
            invariant
                i <= 56,
                r@.len() == 56,
                self.ciphertext@.len() == 1624,
                forall|j: int| 0 <= j < i ==> r@[j] == self.ciphertext@[1568 + j],
            decreases 56 - i,
        {
            r[i] = self.ciphertext.0[1568 + i];
            i += 1;
        }
        proof {
            assert(r@ =~= self.ciphertext@.subrange(1568, 1624));
        }
        r
    }

    /// Requires the initiator to have the lower identifier, then validates
    /// both bundles and the ephemeral X448 key.
    pub fn validate<B: Bridge>(&self, bridge: &B) -> (r: Result<(), Error>)
        ensures
            self.initiator_id@ >= self.responder_id@ ==> r == Err::<(), Error>(Error::Invalid),
            crate::crypto::kem_check(self.initiator.pq_kem_public_key@) is Err
                ==> r == Err::<(), Error>(Error::Invalid),
            exists|x1: Result<(), Error>, s1: Result<(), Error>, x2: Result<(), Error>, s2: Result<(), Error>, e: Result<(), Error>|
                r == transcript_check(
                    *self,
                    bundle_check(self.initiator, x1, s1),
                    bundle_check(self.responder, x2, s2),
                    e,
                ),
            // Success means the bridge accepted both bundles' X448 and
            // signing keys and the ephemeral X448 key.
            r is Ok ==> {
                &&& accepts_x448(bridge, self.initiator.pq_x448_public_key@)
                &&& accepts_signing_key(bridge, self.initiator.pq_sig_public_key@)
                &&& accepts_x448(bridge, self.responder.pq_x448_public_key@)
                &&& accepts_signing_key(bridge, self.responder.pq_sig_public_key@)
                &&& accepts_x448(bridge, self.ciphertext@.subrange(1568, 1624))
            },
    {
        let ghost ok = Ok::<(), Error>(());
        if self.initiator_id.get() >= self.responder_id.get() {
            let r = self.validate_given(Ok(()), Ok(()), Ok(()));
            assert(r == transcript_check(
                *self,
                bundle_check(self.initiator, ok, ok),
                bundle_check(self.responder, ok, ok),
                ok,
            ));
            return r;
        }
        let initiator_check = self.initiator.validate(bridge);
        let ghost (x1, s1) = choose|x1: Result<(), Error>, s1: Result<(), Error>|
            initiator_check == bundle_check(self.initiator, x1, s1);
        if initiator_check.is_err() {
            let r = self.validate_given(initiator_check, Ok(()), Ok(()));
            assert(r == transcript_check(
                *self,
                bundle_check(self.initiator, x1, s1),
                bundle_check(self.responder, ok, ok),
                ok,
            ));
            return r;
        }
        let responder_check = self.responder.validate(bridge);
        let ghost (x2, s2) = choose|x2: Result<(), Error>, s2: Result<(), Error>|
            responder_check == bundle_check(self.responder, x2, s2);
        if responder_check.is_err() {
            let r = self.validate_given(initiator_check, responder_check, Ok(()));
            assert(r == transcript_check(
                *self,
                bundle_check(self.initiator, x1, s1),
                bundle_check(self.responder, x2, s2),
                ok,
            ));
            return r;
        }
        let ephemeral = self.ephemeral_key();
        let ephemeral_check = bridge.x448_validate(&ephemeral);
        let r = self.validate_given(initiator_check, responder_check, ephemeral_check);
        assert(r == transcript_check(
            *self,
            bundle_check(self.initiator, x1, s1),
            bundle_check(self.responder, x2, s2),
            ephemeral_check,
        ));
        proof {
            if r is Ok {
                assert(ephemeral_check == Ok::<(), Error>(ephemeral_check->Ok_0));
            }
        }
        r
    }

    /// Requires the initiator to have the lower identifier; the three
    /// checks are the outcomes of validating the initiator bundle, the
    /// responder bundle and the ephemeral key.
    pub fn validate_given(
        &self,
        initiator_check: Result<(), Error>,
        responder_check: Result<(), Error>,
        ephemeral_check: Result<(), Error>,
    ) -> (r: Result<(), Error>)
        ensures
            r == if self.initiator_id@ >= self.responder_id@ {
                Err(Error::Invalid)
            } else {
                first_error(initiator_check, first_error(responder_check, ephemeral_check))
            },
    {
        if self.initiator_id.get() >= self.responder_id.get() {
            return Err(Error::Invalid);
        }
        initiator_check?;
        responder_check?;
        ephemeral_check
    }

    pub fn encode(&self) -> (r: Vec<u8>)
        ensures
            r@ == transcript_bytes(*self),
    {
        let mut out = label_bytes(true);
        out.push(1u8);
        append_bytes(&mut out, &self.network_id.0);
        let v = to_be_bytes(self.initiator_id.get());
        append_bytes(&mut out, &v);
        let v = to_be_bytes(self.responder_id.get());
        append_bytes(&mut out, &v);
        let b = self.initiator.encode();
        append_bytes(&mut out, b.as_slice());
        let b = self.responder.encode();
        append_bytes(&mut out, b.as_slice());
        let v = to_be_bytes(self.sequence.get());
        append_bytes(&mut out, &v);
        append_bytes(&mut out, &self.exchange_id.0);
        append_bytes(&mut out, &self.operator_psk_id.0);
        append_bytes(&mut out, &self.ciphertext.0);
        proof {
            assert(out@ =~= transcript_bytes(*self));
        }
        out
    }
}

/// The six message kinds, with wire codes 1 to 6.
#[derive(Clone, Copy, Debug, PartialEq, Eq, Structural)]
pub enum Kind {
    Propose,
    Ready,
    Commit,
    Installed,
    Confirmed,
    Abort,
}

pub open spec fn kind_code(k: Kind) -> u8 {
    match k {
        Kind::Propose => 1,
        Kind::Ready => 2,
        Kind::Commit => 3,
        Kind::Installed => 4,
        Kind::Confirmed => 5,
        Kind::Abort => 6,
    }
}

pub open spec fn kind_of(code: u8) -> Option<Kind> {
    if code == 1 {
        Some(Kind::Propose)
    } else if code == 2 {
        Some(Kind::Ready)
    } else if code == 3 {
        Some(Kind::Commit)
    } else if code == 4 {
        Some(Kind::Installed)
    } else if code == 5 {
        Some(Kind::Confirmed)
    } else if code == 6 {
        Some(Kind::Abort)
    } else {
        None
    }
}

impl Kind {
    /// Decodes a wire code.
    pub fn try_from(value: u8) -> (r: Result<Kind, Error>)
        ensures
            match r {
                Ok(k) => kind_of(value) == Some(k) && kind_code(k) == value,
                Err(e) => kind_of(value) is None && e == Error::Invalid,
            },
    {
        match value {
            1 => Ok(Kind::Propose),
            2 => Ok(Kind::Ready),
            3 => Ok(Kind::Commit),
            4 => Ok(Kind::Installed),
            5 => Ok(Kind::Confirmed),
            6 => Ok(Kind::Abort),
            _ => Err(Error::Invalid),
        }
    }

    /// The wire code.
    pub fn code(self) -> (r: u8)
        ensures
            r == kind_code(self),
            kind_of(r) == Some(self),
    {
        match self {
            Kind::Propose => 1,
            Kind::Ready => 2,
            Kind::Commit => 3,
            Kind::Installed => 4,
            Kind::Confirmed => 5,
            Kind::Abort => 6,
        }
    }
}

/// A signed phase message of one exchange.
#[derive(Clone, Copy, Debug, PartialEq, Eq)]
pub struct Message {
    pub version: u8,
    pub network_id: Binary<16>,
    pub initiator_id: Number,
    pub responder_id: Number,
    pub initiator_bundle_id: Binary<16>,
    pub responder_bundle_id: Binary<16>,
    pub sequence: Number,
    pub exchange_id: Binary<16>,
    pub transcript_hash: Binary<32>,
    pub sender_id: Number,
    pub message_type: u8,
    pub tag: Binary<32>,
    pub signature: Binary<132>,
    pub ciphertext: Option<Binary<1624>>,
    pub operator_psk_id: Option<Binary<16>>,
}

/// The shape rules of protocol v1 messages.
pub open spec fn shape(m: Message) -> Result<Kind, Error> {
    match kind_of(m.message_type) {
        None => Err(Error::Invalid),
        Some(kind) => {
            let initiator = m.sender_id@ == m.initiator_id@;
            let responder = m.sender_id@ == m.responder_id@;
            let proposal = kind == Kind::Propose;
            if m.version != 1 || m.initiator_id@ >= m.responder_id@ {
                Err(Error::Invalid)
            } else if !(initiator || responder) || (kind == Kind::Ready && !responder) || ((
            kind == Kind::Propose || kind == Kind::Commit || kind == Kind::Abort) && !initiator) {
                Err(Error::Invalid)
            } else if m.ciphertext.is_some() != proposal || m.operator_psk_id.is_some()
                != proposal {
                Err(Error::Invalid)
            } else {
                Ok(kind)
            }
        },
    }
}

/// The outcome of authenticating `m` against transcript `t` when hashing
/// the transcript gives `hash` and verifying the signature gives
/// `signature_check`: the shape first, then the identifiers, then every
/// bound field against the hash, then the signature.
pub open spec fn authentication(
    m: Message,
    t: Transcript,
    hash: Result<Seq<u8>, Error>,
    signature_check: Result<(), Error>,
) -> Result<(), Error> {
    match shape(m) {
        Err(e) => Err(e),
        Ok(_) => if !ids_bound(m, t) {
            Err(Error::Invalid)
        } else {
            match hash {
                Err(e) => Err(e),
                Ok(h) => if !bound_to(m, t, h) {
                    Err(Error::Invalid)
                } else {
                    signature_check
                },
            }
        },
    }
}

/// A well-shaped message whose bound fields disagree with the transcript,
/// or whose transcript hash is not the transcript's, is refused whatever
/// the signature check gives.
pub proof fn lemma_tampered_message_is_refused(
    m: Message,
    t: Transcript,
    hash: Result<Seq<u8>, Error>,
    signature_check: Result<(), Error>,
)
    requires
        shape(m) is Ok,
        !ids_bound(m, t) || !payload_bound(m, t) || (hash matches Ok(h) && m.transcript_hash@ != h),
    ensures
        authentication(m, t, hash, signature_check) is Err,
{
}

/// The bytes every tag and signature covers.
pub open spec fn envelope_bytes(m: Message) -> Seq<u8> {
    message_label() + seq![m.version] + m.network_id@ + be_bytes(m.initiator_id@) + be_bytes(
        m.responder_id@,
    ) + m.initiator_bundle_id@ + m.responder_bundle_id@ + be_bytes(m.sequence@)
        + m.exchange_id@ + m.transcript_hash@ + be_bytes(m.sender_id@) + seq![m.message_type]
}

/// Whether a message's bound fields all agree with a transcript whose
/// hash is `transcript_hash`.
pub open spec fn bound_to(m: Message, t: Transcript, transcript_hash: Seq<u8>) -> bool {
    &&& ids_bound(m, t)
    &&& m.transcript_hash@ == transcript_hash
    &&& payload_bound(m, t)
}

/// The identifiers a message shares with its transcript.
pub open spec fn ids_bound(m: Message, t: Transcript) -> bool {
    &&& m.network_id == t.network_id
    &&& m.initiator_id@ == t.initiator_id@
    &&& m.responder_id@ == t.responder_id@
    &&& m.initiator_bundle_id == t.initiator.bundle_id
    &&& m.responder_bundle_id == t.responder.bundle_id
    &&& m.sequence@ == t.sequence@
    &&& m.exchange_id == t.exchange_id
}

/// A proposal's ciphertext and operator PSK identifier are the transcript's.
pub open spec fn payload_bound(m: Message, t: Transcript) -> bool {
    &&& (m.ciphertext matches Some(c) ==> c == t.ciphertext)
    &&& (m.operator_psk_id matches Some(id) ==> id == t.operator_psk_id)
}

/// Whether `sender` may send a message of `kind` in an exchange over `t`.
pub open spec fn may_send(t: Transcript, kind: Kind, sender: Number) -> bool {
    let initiator = sender@ == t.initiator_id@;
    let responder = sender@ == t.responder_id@;
    &&& t.initiator_id@ < t.responder_id@
    &&& initiator || responder
    &&& (kind == Kind::Ready ==> responder)
    &&& (kind == Kind::Propose || kind == Kind::Commit || kind == Kind::Abort ==> initiator)
}

/// The confirmation key of `m`'s sender among a candidate's two.
pub open spec fn sender_confirmation(m: Message, c: Candidate) -> Secret<32> {
    if m.sender_id@ == m.initiator_id@ {
        c.initiator_confirmation
    } else {
        c.responder_confirmation
    }
}

/// What `Message::draft` builds: every field but the hash, tag and
/// signature is fixed by the transcript, kind and sender.
pub open spec fn drafted(m: Message, t: Transcript, kind: Kind, sender: Number) -> bool {
    &&& shape(m) == Ok::<Kind, Error>(kind)
    &&& ids_bound(m, t)
    &&& payload_bound(m, t)
    &&& m.sender_id == sender
    &&& m.message_type == kind_code(kind)
    &&& m.version == 1
    &&& (m.ciphertext is Some <==> kind == Kind::Propose)
    &&& (m.operator_psk_id is Some <==> kind == Kind::Propose)
}

/// Where the bridge's HMAC gives one outcome per input, a message whose
/// tag was altered after it confirmed under a key no longer confirms under
/// that key: the envelope leaves the tag out, so the HMAC to match stays
/// the same.
pub proof fn lemma_altered_tag_is_refused<B: Bridge>(
    bridge: &B,
    key: Seq<u8>,
    m: Message,
    tag: [u8; 32],
)
    requires
        hmac_is_function(bridge),
        tags_to(bridge, key, envelope_bytes(m), Ok(m.tag.0)),
        tag != m.tag.0,
    ensures
        !tags_to(bridge, key, envelope_bytes(Message { tag: Binary(tag), ..m }), Ok(tag)),
{
    let altered = Message { tag: Binary(tag), ..m };
    assert(envelope_bytes(altered) == envelope_bytes(m));
    if tags_to(bridge, key, envelope_bytes(altered), Ok(tag)) {
        let (k1, d1) = choose|k: &Secret<32>, d: &[u8]|
            #[trigger] call_ensures(B::hmac, (bridge, k, d), Ok::<[u8; 32], Error>(m.tag.0)) && k@
                == key && d@ == envelope_bytes(m);
        let (k2, d2) = choose|k: &Secret<32>, d: &[u8]|
            #[trigger] call_ensures(B::hmac, (bridge, k, d), Ok::<[u8; 32], Error>(tag)) && k@
                == key && d@ == envelope_bytes(altered);
        assert(call_ensures(B::hmac, (bridge, k1, d1), Ok::<[u8; 32], Error>(m.tag.0)));
        assert(call_ensures(B::hmac, (bridge, k2, d2), Ok::<[u8; 32], Error>(tag)));
    }
}

/// The bundle whose signing key must have signed `m`.
pub open spec fn signer(m: Message, t: Transcript) -> Bundle {
    if m.sender_id@ == m.initiator_id@ {
        t.initiator
    } else {
        t.responder
    }
}

impl Message {
    pub fn validate_shape(&self) -> (r: Result<Kind, Error>)
        ensures
            r == shape(*self),
    {
        let kind = Kind::try_from(self.message_type)?;
        if self.version != 1 || self.initiator_id.get() >= self.responder_id.get() {
            return Err(Error::Invalid);
        }
        let initiator = self.sender_id.get() == self.initiator_id.get();
        let responder = self.sender_id.get() == self.responder_id.get();
        if !(initiator || responder) || (kind == Kind::Ready && !responder) || ((kind
            == Kind::Propose || kind == Kind::Commit || kind == Kind::Abort) && !initiator) {
            return Err(Error::Invalid);
        }
        let proposal = kind == Kind::Propose;
        if self.ciphertext.is_some() != proposal || self.operator_psk_id.is_some() != proposal {
            return Err(Error::Invalid);
        }
        Ok(kind)
    }

    pub fn envelope(&self) -> (r: Vec<u8>)
        ensures
            r@ == envelope_bytes(*self),
    {
        let mut out = label_bytes(false);
        out.push(self.version);
        append_bytes(&mut out, &self.network_id.0);
        let v = to_be_bytes(self.initiator_id.get());
        append_bytes(&mut out, &v);
        let v = to_be_bytes(self.responder_id.get());
        append_bytes(&mut out, &v);
        append_bytes(&mut out, &self.initiator_bundle_id.0);
        append_bytes(&mut out, &self.responder_bundle_id.0);
        let v = to_be_bytes(self.sequence.get());
        append_bytes(&mut out, &v);
        append_bytes(&mut out, &self.exchange_id.0);
        append_bytes(&mut out, &self.transcript_hash.0);
        let v = to_be_bytes(self.sender_id.get());
        append_bytes(&mut out, &v);
        out.push(self.message_type);
        proof {
            assert(out@ =~= envelope_bytes(*self));
        }
        out
    }

    /// The envelope followed by the tag: what the signature covers.
    pub fn signed_bytes(&self) -> (r: Vec<u8>)
        ensures
            r@ == envelope_bytes(*self) + self.tag@,
    {
        let mut out = self.envelope();
        append_bytes(&mut out, &self.tag.0);
        out
    }

    /// The sender's bundle in `transcript`.
    pub fn signer<'a>(&self, transcript: &'a Transcript) -> (r: &'a Bundle)
        ensures
            *r == signer(*self, *transcript),
    {
        if self.sender_id.get() == self.initiator_id.get() {
            &transcript.initiator
        } else {
            &transcript.responder
        }
    }

    /// Checks the message's shape and that every bound field matches
    /// `transcript`, whose hash is `transcript_hash`; `signature_check` is
    /// the outcome of verifying `signature` over `signed_bytes()` with the
    /// signing key of `signer(transcript)`.
    pub fn authenticate_given(
        &self,
        transcript: &Transcript,
        transcript_hash: &[u8; 32],
        signature_check: Result<(), Error>,
    ) -> (r: Result<(), Error>)
        ensures
            r == match shape(*self) {
                Err(e) => Err(e),
                Ok(_) => if !bound_to(*self, *transcript, transcript_hash@) {
                    Err(Error::Invalid)
                } else {
                    signature_check
                },
            },
    {
        self.validate_shape()?;
        let bound = same_bytes(&self.network_id.0, &transcript.network_id.0)
            && self.initiator_id.get() == transcript.initiator_id.get()
            && self.responder_id.get() == transcript.responder_id.get()
            && same_bytes(&self.initiator_bundle_id.0, &transcript.initiator.bundle_id.0)
            && same_bytes(&self.responder_bundle_id.0, &transcript.responder.bundle_id.0)
            && self.sequence.get() == transcript.sequence.get()
            && same_bytes(&self.exchange_id.0, &transcript.exchange_id.0)
            && same_bytes(&self.transcript_hash.0, transcript_hash)
            && match &self.ciphertext {
            Some(c) => same_bytes(&c.0, &transcript.ciphertext.0),
            None => true,
        } && match &self.operator_psk_id {
            Some(id) => same_bytes(&id.0, &transcript.operator_psk_id.0),
            None => true,
        };
        if !bound {
            return Err(Error::Invalid);
        }
        signature_check
    }

    /// An unsigned message of `kind` from `sender` for `transcript`, whose
    /// hash is `transcript_hash`; tag and signature are still zero.
    pub fn draft(transcript: &Transcript, kind: Kind, sender: Number, transcript_hash: [u8; 32]) -> (r:
        Result<Message, Error>)
        ensures
            r is Ok <==> may_send(*transcript, kind, sender),
            match r {
                Ok(m) => {
                    &&& drafted(m, *transcript, kind, sender)
                    &&& m.transcript_hash@ == transcript_hash@
                    &&& m.tag@ == Seq::new(32, |i: int| 0u8)
                    &&& m.signature@ == Seq::new(132, |i: int| 0u8)
                },
                Err(e) => e == Error::Invalid,
            },
    {
        let proposal = kind == Kind::Propose;
        let message = Message {
            version: 1,
            network_id: transcript.network_id,
            initiator_id: transcript.initiator_id,
            responder_id: transcript.responder_id,
            initiator_bundle_id: transcript.initiator.bundle_id,
            responder_bundle_id: transcript.responder.bundle_id,
            sequence: transcript.sequence,
            exchange_id: transcript.exchange_id,
            transcript_hash: Binary(transcript_hash),
            sender_id: sender,
            message_type: kind.code(),
            tag: Binary([0u8; 32]),
            signature: Binary([0u8; 132]),
            ciphertext: if proposal {
                Some(transcript.ciphertext)
            } else {
                None
            },
            operator_psk_id: if proposal {
                Some(transcript.operator_psk_id)
            } else {
                None
            },
        };
        message.validate_shape()?;
        proof {
            assert(message.tag@ =~= Seq::new(32, |i: int| 0u8));
            assert(message.signature@ =~= Seq::new(132, |i: int| 0u8));
        }
        Ok(message)
    }

    /// The sender's directional confirmation key.
    pub fn confirmation_key<'a>(&self, candidate: &'a Candidate) -> (r: &'a Secret<32>)
        ensures
            *r == if self.sender_id@ == self.initiator_id@ {
                candidate.initiator_confirmation
            } else {
                candidate.responder_confirmation
            },
    {
        if self.sender_id.get() == self.initiator_id.get() {
            &candidate.initiator_confirmation
        } else {
            &candidate.responder_confirmation
        }
    }

    /// Checks the message's shape, then compares its tag in constant time
    /// with `expected`: the outcome of computing the tag of `envelope()`
    /// under `confirmation_key(candidate)`.
    pub fn confirm_given(&self, expected: Result<[u8; 32], Error>) -> (r: Result<(), Error>)
        ensures
            r == match shape(*self) {
                Err(e) => Err(e),
                Ok(_) => match expected {
                    Err(e) => Err(e),
                    Ok(t) => if t@ == self.tag@ {
                        Ok(())
                    } else {
                        Err(Error::Crypto)
                    },
                },
            },
    {
        self.validate_shape()?;
        let expected = expected?;
        if Secret::from_bytes(expected).same(&Secret::from_bytes(self.tag.0)) {
            Ok(())
        } else {
            Err(Error::Crypto)
        }
    }

    /// The message with its tag and signature set.
    pub fn seal(self, tag: [u8; 32], signature: [u8; 132]) -> (r: Message)
        ensures
            r == (Message { tag: Binary(tag), signature: Binary(signature), ..self }),
    {
        Message { tag: Binary(tag), signature: Binary(signature), ..self }
    }

    /// Checks the message's shape and binding to `transcript` (hashing the
    /// transcript only once the identifiers agree), then verifies the
    /// signature over `signed_bytes()` with the sender's signing key.
    pub fn authenticate<B: Bridge>(&self, transcript: &Transcript, bridge: &B) -> (r: Result<
        (),
        Error,
    >)
        ensures
            match shape(*self) {
                Err(e) => r == Err::<(), Error>(e),
                Ok(_) => {
                    &&& !ids_bound(*self, *transcript) ==> r == Err::<(), Error>(Error::Invalid)
                    &&& r is Ok ==> bound_to(*self, *transcript, self.transcript_hash@)
                },
            },
            exists|hash: Result<Seq<u8>, Error>, signature_check: Result<(), Error>|
                r == authentication(*self, *transcript, hash, signature_check),
            // Success means the bridge hashed the transcript to the bound
            // hash and accepted the signature over the envelope and tag
            // under the signer's key.
            r is Ok ==> {
                &&& hashes_to(bridge, transcript_bytes(*transcript), Ok(self.transcript_hash.0))
                &&& verifies_to(
                    bridge,
                    signer(*self, *transcript).pq_sig_public_key@,
                    self.signature@,
                    envelope_bytes(*self) + self.tag@,
                    Ok(()),
                )
            },
    {
        self.validate_shape()?;
        let ids = same_bytes(&self.network_id.0, &transcript.network_id.0)
            && self.initiator_id.get() == transcript.initiator_id.get()
            && self.responder_id.get() == transcript.responder_id.get()
            && same_bytes(&self.initiator_bundle_id.0, &transcript.initiator.bundle_id.0)
            && same_bytes(&self.responder_bundle_id.0, &transcript.responder.bundle_id.0)
            && self.sequence.get() == transcript.sequence.get()
            && same_bytes(&self.exchange_id.0, &transcript.exchange_id.0);
        if !ids {
            return Err(Error::Invalid);
        }
        let encoded = transcript.encode();
        let hashed = bridge.hash(encoded.as_slice());
        assert(hashes_to(bridge, transcript_bytes(*transcript), hashed));
        let digest = match hashed {
            Ok(d) => d,
            Err(e) => {
                assert(Err::<(), Error>(e) == authentication(
                    *self,
                    *transcript,
                    Err(e),
                    Ok(()),
                ));
                return Err(e);
            },
        };
        let bound = self.authenticate_given(transcript, &digest, Ok(()));
        if bound.is_err() {
            assert(bound == authentication(*self, *transcript, Ok(digest@), Ok(())));
            return bound;
        }
        let signer = self.signer(transcript);
        let signed = self.signed_bytes();
        let signature_check = bridge.verify(
            &signer.pq_sig_public_key.0,
            &self.signature.0,
            signed.as_slice(),
        );
        assert(verifies_to(
            bridge,
            signer.pq_sig_public_key@,
            self.signature@,
            signed@,
            signature_check,
        ));
        let r = self.authenticate_given(transcript, &digest, signature_check);
        assert(r == authentication(*self, *transcript, Ok(digest@), signature_check));
        proof {
            if r is Ok {
                assert(digest =~= self.transcript_hash.0);
                assert(signature_check == Ok::<(), Error>(signature_check->Ok_0));
            }
        }
        r
    }

    /// Checks the message's shape, then its tag against the HMAC of its
    /// envelope under the sender's confirmation key in `candidate`.
    pub fn confirm<B: Bridge>(&self, candidate: &Candidate, bridge: &B) -> (r: Result<(), Error>)
        ensures
            match shape(*self) {
                Err(e) => r == Err::<(), Error>(e),
                Ok(_) => true,
            },
            // Success means the bridge's HMAC of the envelope under the
            // sender's confirmation key is the message's tag.
            r is Ok ==> tags_to(
                bridge,
                sender_confirmation(*self, *candidate)@,
                envelope_bytes(*self),
                Ok(self.tag.0),
            ),
    {
        self.validate_shape()?;
        let key = self.confirmation_key(candidate);
        let envelope = self.envelope();
        let expected = bridge.hmac(key, envelope.as_slice());
        assert(tags_to(bridge, key@, envelope@, expected));
        let r = self.confirm_given(expected);
        proof {
            if r is Ok {
                assert(expected->Ok_0 =~= self.tag.0);
            }
        }
        r
    }

    /// A message of `kind` from `sender`, bound to `transcript`, tagged with
    /// the sender's confirmation key and signed with `signing_key`.
    pub fn signed<B: Bridge>(
        transcript: &Transcript,
        kind: Kind,
        sender: Number,
        candidate: &Candidate,
        signing_key: &Secret<66>,
        bridge: &B,
    ) -> (r: Result<Message, Error>)
        ensures
            !may_send(*transcript, kind, sender) ==> r is Err,
            r matches Ok(m) ==> {
                &&& drafted(m, *transcript, kind, sender)
                &&& hashes_to(bridge, transcript_bytes(*transcript), Ok(m.transcript_hash.0))
                &&& tags_to(
                    bridge,
                    sender_confirmation(m, *candidate)@,
                    envelope_bytes(m),
                    Ok(m.tag.0),
                )
                &&& signs_to(bridge, signing_key@, envelope_bytes(m) + m.tag@, Ok(m.signature.0))
            },
    {
        let encoded = transcript.encode();
        let digest = bridge.hash(encoded.as_slice())?;
        assert(hashes_to(bridge, transcript_bytes(*transcript), Ok(digest)));
        let draft = Message::draft(transcript, kind, sender, digest)?;
        let key = draft.confirmation_key(candidate);
        let envelope = draft.envelope();
        let tag = bridge.hmac(key, envelope.as_slice())?;
        assert(tags_to(bridge, key@, envelope@, Ok(tag)));
        let tagged = draft.seal(tag, [0u8; 132]);
        let signed = tagged.signed_bytes();
        let signature = bridge.sign(signing_key, signed.as_slice())?;
        assert(signs_to(bridge, signing_key@, signed@, Ok(signature)));
        let m = tagged.seal(tag, signature);
        assert(envelope_bytes(m) == envelope_bytes(draft));
        assert(m.transcript_hash.0 == digest);
        Ok(m)
    }
}


/// The outcome of parsing a message body of `length` bytes: `decoded` is
/// the strict JSON decoding of the whole body (`None` where it failed), and
/// `explicit_null` tells whether `ciphertext` or `operator_psk_id` was an
/// explicit null, which the protocol requires to be absent instead.
pub open spec fn parsed_message(length: nat, decoded: Option<Message>, explicit_null: bool) -> Result<
    Message,
    Error,
> {
    if length > REQUEST_LIMIT {
        Err(Error::Invalid)
    } else {
        match decoded {
            None => Err(Error::Invalid),
            Some(m) => if explicit_null {
                Err(Error::Invalid)
            } else {
                match shape(m) {
                    Ok(_) => Ok(m),
                    Err(e) => Err(e),
                }
            },
        }
    }
}

pub fn parse_message(length: usize, decoded: Option<Message>, explicit_null: bool) -> (r: Result<
    Message,
    Error,
>)
    ensures
        r == parsed_message(length as nat, decoded, explicit_null),
{
    if length > REQUEST_LIMIT {
        return Err(Error::Invalid);
    }
    let message = match decoded {
        Some(m) => m,
        None => return Err(Error::Invalid),
    };
    if explicit_null {
        return Err(Error::Invalid);
    }
    message.validate_shape()?;
    Ok(message)
}

/// Phases of one exchange.
#[derive(Clone, Copy, Debug, PartialEq, Eq, Structural)]
pub enum Phase {
    Proposed,
    Ready,
    Committed,
    Complete,
    Aborted,
}

/// The pure transition model of one exchange. Index 0 of `installed` and
/// `confirmed` is the initiator's side, index 1 the responder's.
#[derive(Clone, Copy, Debug, PartialEq, Eq)]
pub struct Decision {
    pub phase: Phase,
    pub installed: [bool; 2],
    pub confirmed: [bool; 2],
}

/// The array slot of a side.
pub open spec fn side_of(initiator: bool) -> int {
    if initiator {
        0
    } else {
        1
    }
}

/// Whether a message of `kind` from the given side is a legal next step.
pub open spec fn may_advance(d: Decision, kind: Kind, initiator: bool) -> bool {
    ||| d.phase == Phase::Proposed && kind == Kind::Ready && !initiator
    ||| d.phase == Phase::Ready && kind == Kind::Commit && initiator
    ||| (d.phase == Phase::Proposed || d.phase == Phase::Ready) && kind == Kind::Abort && initiator
    ||| d.phase == Phase::Committed && kind == Kind::Installed && (!initiator || d.installed@[1])
    ||| d.phase == Phase::Committed && kind == Kind::Confirmed && d.installed@[side_of(initiator)]
}

pub open spec fn installed_after(d: Decision, kind: Kind, initiator: bool) -> Seq<bool> {
    if kind == Kind::Installed {
        d.installed@.update(side_of(initiator), true)
    } else {
        d.installed@
    }
}

pub open spec fn confirmed_after(d: Decision, kind: Kind, initiator: bool) -> Seq<bool> {
    if kind == Kind::Confirmed {
        d.confirmed@.update(side_of(initiator), true)
    } else {
        d.confirmed@
    }
}

pub open spec fn phase_after(d: Decision, kind: Kind, initiator: bool) -> Phase {
    if kind == Kind::Ready {
        Phase::Ready
    } else if kind == Kind::Commit {
        Phase::Committed
    } else if kind == Kind::Abort {
        Phase::Aborted
    } else if kind == Kind::Confirmed && confirmed_after(d, kind, initiator)[0] && confirmed_after(
        d,
        kind,
        initiator,
    )[1] {
        Phase::Complete
    } else {
        d.phase
    }
}

pub open spec fn is_terminal(p: Phase) -> bool {
    p == Phase::Complete || p == Phase::Aborted
}

/// The phase after a prepare deadline passes.
pub open spec fn expired_phase(p: Phase) -> Phase {
    if p == Phase::Proposed || p == Phase::Ready {
        Phase::Aborted
    } else {
        p
    }
}

/// The invariant every reachable decision keeps: confirmation follows
/// installation on each side, the responder installs first, nothing is
/// installed outside the committed phases, and the exchange is complete
/// exactly when both sides confirmed.
pub open spec fn consistent_parts(phase: Phase, installed: Seq<bool>, confirmed: Seq<bool>) -> bool {
    &&& installed.len() == 2
    &&& confirmed.len() == 2
    &&& (confirmed[0] ==> installed[0])
    &&& (confirmed[1] ==> installed[1])
    &&& (installed[0] ==> installed[1])
    &&& (installed[1] ==> phase == Phase::Committed || phase == Phase::Complete)
    &&& (phase == Phase::Complete <==> confirmed[0] && confirmed[1])
}

pub open spec fn consistent(d: Decision) -> bool {
    consistent_parts(d.phase, d.installed@, d.confirmed@)
}

impl Decision {
    /// A freshly proposed exchange.
    pub fn new() -> (r: Decision)
        ensures
            r.phase == Phase::Proposed,
            r.installed@ == seq![false, false],
            r.confirmed@ == seq![false, false],
            consistent(r),
    {
        let r = Decision { phase: Phase::Proposed, installed: [false, false], confirmed: [false, false] };
        proof {
            assert(r.installed@ =~= seq![false, false]);
            assert(r.confirmed@ =~= seq![false, false]);
        }
        r
    }

    /// Applies one message of `kind` from the initiator (`initiator`) or the
    /// responder; an illegal step is a conflict and changes nothing.
    pub fn advance(&mut self, kind: Kind, initiator: bool) -> (r: Result<(), Error>)
        ensures
            (r is Ok) == may_advance(*old(self), kind, initiator),
            r is Err ==> r == Err::<(), Error>(Error::Conflict) && *final(self) == *old(self),
            r is Ok ==> {
                &&& final(self).phase == phase_after(*old(self), kind, initiator)
                &&& final(self).installed@ == installed_after(*old(self), kind, initiator)
                &&& final(self).confirmed@ == confirmed_after(*old(self), kind, initiator)
            },
            consistent(*old(self)) ==> consistent(*final(self)),
            // Only the initiator aborts, and only before commitment.
            kind == Kind::Abort && !initiator ==> r == Err::<(), Error>(Error::Conflict)
                && *final(self) == *old(self),
    {
        let side: usize = if initiator {
            0
        } else {
            1
        };
        if self.phase == Phase::Proposed && kind == Kind::Ready && !initiator {
            self.phase = Phase::Ready;
        } else if self.phase == Phase::Ready && kind == Kind::Commit && initiator {
            self.phase = Phase::Committed;
        } else if (self.phase == Phase::Proposed || self.phase == Phase::Ready) && kind
            == Kind::Abort && initiator {
            self.phase = Phase::Aborted;
        } else if self.phase == Phase::Committed && kind == Kind::Installed && (!initiator
            || self.installed[1]) {
            self.installed[side] = true;
        } else if self.phase == Phase::Committed && kind == Kind::Confirmed && self.installed[side] {
            self.confirmed[side] = true;
            if self.confirmed[0] && self.confirmed[1] {
                self.phase = Phase::Complete;
            }
        } else {
            return Err(Error::Conflict);
        }
        proof {
            assert(self.installed@ =~= installed_after(*old(self), kind, initiator));
            assert(self.confirmed@ =~= confirmed_after(*old(self), kind, initiator));
        }
        Ok(())
    }

    /// A prepare deadline passed: an uncommitted exchange aborts; a
    /// committed one is unaffected.
    pub fn expire(&mut self)
        ensures
            final(self).phase == expired_phase(old(self).phase),
            final(self).installed == old(self).installed,
            final(self).confirmed == old(self).confirmed,
            consistent(*old(self)) ==> consistent(*final(self)),
    {
        if self.phase == Phase::Proposed || self.phase == Phase::Ready {
            self.phase = Phase::Aborted;
        }
    }

    pub fn terminal(&self) -> (r: bool)
        ensures
            r == is_terminal(self.phase),
    {
        self.phase == Phase::Complete || self.phase == Phase::Aborted
    }
}

impl Default for Decision {
    fn default() -> (r: Decision)
        ensures
            r.phase == Phase::Proposed,
            r.installed@ == seq![false, false],
            r.confirmed@ == seq![false, false],
    {
        Decision::new()
    }
}

/// A terminal decision accepts no further message, and expiry leaves it as
/// it is.
pub proof fn lemma_terminal_is_final(d: Decision, kind: Kind, initiator: bool)
    requires
        is_terminal(d.phase),
    ensures
        !may_advance(d, kind, initiator),
        expired_phase(d.phase) == d.phase,
{
}

/// Once committed, an exchange can only stay committed or complete: no
/// message and no deadline aborts it.
pub proof fn lemma_commitment_is_never_undone(d: Decision, kind: Kind, initiator: bool)
    requires
        d.phase == Phase::Committed || d.phase == Phase::Complete,
    ensures
        may_advance(d, kind, initiator) ==> phase_after(d, kind, initiator) == Phase::Committed
            || phase_after(d, kind, initiator) == Phase::Complete,
        expired_phase(d.phase) == d.phase,
{
}

/// A consistent complete exchange was installed and confirmed on both
/// sides.
pub proof fn lemma_complete_means_both_sides_done(d: Decision)
    requires
        consistent(d),
        d.phase == Phase::Complete,
    ensures
        d.installed@[0] && d.installed@[1] && d.confirmed@[0] && d.confirmed@[1],
{
}

/// Each legal step and each expiry keeps a decision consistent.
pub proof fn lemma_steps_keep_consistency(d: Decision, kind: Kind, initiator: bool)
    requires
        consistent(d),
    ensures
        may_advance(d, kind, initiator) ==> consistent_parts(
            phase_after(d, kind, initiator),
            installed_after(d, kind, initiator),
            confirmed_after(d, kind, initiator),
        ),
        consistent_parts(expired_phase(d.phase), d.installed@, d.confirmed@),
{
}

/// Who may send what, and when. Only the responder answers a proposal,
/// only the initiator commits, and only the initiator aborts, and only
/// before commitment; an install receipt comes only once committed, the
/// initiator's only after the responder's; a confirmation only after the
/// sender's own install; a proposal never moves a decision. Each of those
/// steps is open to its sender at that point, and an abort ends the
/// exchange.
pub proof fn lemma_who_may_send_what(d: Decision, kind: Kind, initiator: bool)
    ensures
        may_advance(d, kind, initiator) ==> {
            &&& kind != Kind::Propose
            &&& kind == Kind::Ready ==> !initiator && d.phase == Phase::Proposed
            &&& kind == Kind::Commit ==> initiator && d.phase == Phase::Ready
            &&& kind == Kind::Abort ==> initiator && (d.phase == Phase::Proposed || d.phase
                == Phase::Ready)
            &&& kind == Kind::Installed ==> d.phase == Phase::Committed && (initiator
                ==> d.installed@[1])
            &&& kind == Kind::Confirmed ==> d.phase == Phase::Committed && d.installed@[if initiator {
                0int
            } else {
                1int
            }]
        },
        !may_advance(d, Kind::Abort, false),
        d.phase == Phase::Proposed ==> may_advance(d, Kind::Ready, false) && may_advance(
            d,
            Kind::Abort,
            true,
        ),
        d.phase == Phase::Ready ==> may_advance(d, Kind::Commit, true) && may_advance(
            d,
            Kind::Abort,
            true,
        ),
        d.phase == Phase::Committed ==> may_advance(d, Kind::Installed, false),
        may_advance(d, Kind::Abort, initiator) ==> phase_after(d, Kind::Abort, initiator)
            == Phase::Aborted,
        may_advance(d, Kind::Commit, initiator) ==> phase_after(d, Kind::Commit, initiator)
            == Phase::Committed,
        may_advance(d, Kind::Ready, initiator) ==> phase_after(d, Kind::Ready, initiator)
            == Phase::Ready,
        // An install receipt marks only its sender's side, and keeps the
        // exchange committed.
        may_advance(d, Kind::Installed, initiator) ==> {
            &&& installed_after(d, Kind::Installed, initiator)[if initiator {
                0int
            } else {
                1int
            }]
            &&& installed_after(d, Kind::Installed, initiator)[if initiator {
                1int
            } else {
                0int
            }] == d.installed@[if initiator {
                1int
            } else {
                0int
            }]
            &&& confirmed_after(d, Kind::Installed, initiator) == d.confirmed@
            &&& phase_after(d, Kind::Installed, initiator) == Phase::Committed
        },
        // A confirmation marks only its sender's side; the exchange
        // completes exactly when both sides have confirmed.
        consistent(d) && may_advance(d, Kind::Confirmed, initiator) ==> {
            &&& confirmed_after(d, Kind::Confirmed, initiator)[if initiator {
                0int
            } else {
                1int
            }]
            &&& confirmed_after(d, Kind::Confirmed, initiator)[if initiator {
                1int
            } else {
                0int
            }] == d.confirmed@[if initiator {
                1int
            } else {
                0int
            }]
            &&& installed_after(d, Kind::Confirmed, initiator) == d.installed@
            &&& (phase_after(d, Kind::Confirmed, initiator) == Phase::Complete <==> d.confirmed@[if initiator {
                1int
            } else {
                0int
            }])
            &&& phase_after(d, Kind::Confirmed, initiator) != Phase::Complete ==> phase_after(
                d,
                Kind::Confirmed,
                initiator,
            ) == Phase::Committed
        },
{
}

} // verus!

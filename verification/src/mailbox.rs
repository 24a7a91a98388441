//! The server's exchange mailbox rules: which submissions are accepted,
//! how an exchange record advances, when a record is opened, swept or
//! terminated, and how bundle registrations move between revisions. The
//! records themselves live in the database; these functions decide.
use vstd::prelude::*;
use vstd::string::StringSliceAdditionalSpecFns;

use crate::admission::Limits;
use crate::api::{registration_shape_ok, AdvertisedBundle, Exchange, Lifecycle, MessageDigest, Registration};
use crate::codec::{all_digits, decimal, parse_digits};
use crate::crypto::{hashes_to, verifies_to, Bridge};
use crate::protocol::{
    envelope_bytes, is_terminal, may_advance, shape, signer, transcript_bytes, Binary, Bundle,
    Decision, Kind, Message, Number, Phase, Transcript, PREPARE_TTL, REQUEST_LIMIT,
};
use crate::Error;

verus! {

/// Why the mailbox refuses a request.
#[derive(Clone, Copy, Debug, PartialEq, Eq, Structural)]
pub enum MailboxError {
    Unauthorized,
    NotFound,
    InvalidQuery,
    Conflict,
    RateLimited,
    Unavailable,
    /// A body larger than the request limit.
    PayloadTooLarge,
    /// A body that is not plain JSON.
    UnsupportedMedia,
    Protocol(Error),
}

/// The HTTP status a refusal is answered with.
pub open spec fn status_of(e: MailboxError) -> u16 {
    match e {
        MailboxError::Unauthorized => 401,
        MailboxError::NotFound => 404,
        MailboxError::InvalidQuery => 400,
        MailboxError::Conflict => 409,
        MailboxError::RateLimited => 429,
        MailboxError::Unavailable => 503,
        MailboxError::PayloadTooLarge => 413,
        MailboxError::UnsupportedMedia => 415,
        MailboxError::Protocol(Error::Conflict) => 409,
        MailboxError::Protocol(Error::Random) => 503,
        MailboxError::Protocol(_) => 400,
    }
}

pub fn status_code(e: MailboxError) -> (r: u16)
    ensures
        r == status_of(e),
{
    match e {
        MailboxError::Unauthorized => 401,
        MailboxError::NotFound => 404,
        MailboxError::InvalidQuery => 400,
        MailboxError::Conflict => 409,
        MailboxError::RateLimited => 429,
        MailboxError::Unavailable => 503,
        MailboxError::PayloadTooLarge => 413,
        MailboxError::UnsupportedMedia => 415,
        MailboxError::Protocol(Error::Conflict) => 409,
        MailboxError::Protocol(Error::Random) => 503,
        MailboxError::Protocol(_) => 400,
    }
}

/// Whether an answer with `status` tells the client to retry after a
/// second: an exhausted budget or an unavailable service.
pub fn retry_after(status: u16) -> (r: bool)
    ensures
        r == (status == 429 || status == 503),
{
    status == 429 || status == 503
}

/// The value of an unsigned decimal header: an optional `+`, then one or
/// more digits, no larger than `u64::MAX`.
pub open spec fn unsigned_text(b: Seq<u8>) -> Option<nat> {
    let digits = if b.len() > 0 && b[0] == 43 {
        b.drop_first()
    } else {
        b
    };
    if all_digits(digits) && decimal(digits) <= u64::MAX {
        Some(decimal(digits))
    } else {
        None
    }
}

fn parse_unsigned(b: &[u8]) -> (r: Option<u64>)
    ensures
        match r {
            Some(v) => unsigned_text(b@) == Some(v as nat),
            None => unsigned_text(b@) is None,
        },
{
    if b.len() > 0 && b[0] == 43u8 {
        let mut rest: Vec<u8> = Vec::new();
        let mut i: usize = 1;
        while i < b.len()
            invariant
                1 <= i <= b@.len(),
                rest@ == b@.subrange(1, i as int),
            decreases b@.len() - i,
        {
            rest.push(b[i]);
            i += 1;
        }
        proof {
            assert(rest@ =~= b@.drop_first());
        }
        parse_digits(rest.as_slice(), u64::MAX)
    } else {
        parse_digits(b, u64::MAX)
    }
}

/// What the headers of a request body decide before it is read: exactly
/// one `Content-Type`, which is `application/json`, and no
/// `Content-Encoding`, else the media is unsupported; then at most one
/// `Content-Length`, whose text (`None` when it is not visible ASCII) is an
/// unsigned decimal, else the query is invalid; a length beyond the request
/// limit is too large.
pub fn check_body_headers(
    content_types: usize,
    content_type: Option<&str>,
    encoded: bool,
    lengths: usize,
    length: Option<Option<&str>>,
) -> (r: Result<(), MailboxError>)
    ensures
        ({
            let json = content_type matches Some(t) && t@ == "application/json"@;
            if content_types != 1 || !json || encoded {
                r == Err::<(), MailboxError>(MailboxError::UnsupportedMedia)
            } else if lengths > 1 {
                r == Err::<(), MailboxError>(MailboxError::InvalidQuery)
            } else {
                match length {
                    None => r == Ok::<(), MailboxError>(()),
                    Some(None) => r == Err::<(), MailboxError>(MailboxError::InvalidQuery),
                    Some(Some(t)) => match unsigned_text(t.spec_bytes()) {
                        None => r == Err::<(), MailboxError>(MailboxError::InvalidQuery),
                        Some(v) => r == if v > REQUEST_LIMIT {
                            Err::<(), MailboxError>(MailboxError::PayloadTooLarge)
                        } else {
                            Ok(())
                        },
                    },
                }
            }
        }),
{
    let json = match content_type {
        Some(t) => crate::paging::text_is(t, "application/json"),
        None => false,
    };
    if content_types != 1 || !json || encoded {
        return Err(MailboxError::UnsupportedMedia);
    }
    if lengths > 1 {
        return Err(MailboxError::InvalidQuery);
    }
    match length {
        None => Ok(()),
        Some(None) => Err(MailboxError::InvalidQuery),
        Some(Some(t)) => match parse_unsigned(t.as_bytes()) {
            None => Err(MailboxError::InvalidQuery),
            Some(v) => if v > REQUEST_LIMIT as u64 {
                Err(MailboxError::PayloadTooLarge)
            } else {
                Ok(())
            },
        },
    }
}

/// The identifier pair of a submission: both positive and distinct.
pub open spec fn pair_ids_ok(id: i64, other: i64) -> bool {
    id > 0 && other > 0 && id != other
}

/// Whether a pair of peers may exchange, given what the directory says:
/// positive distinct identifiers, neither the server, both enabled and
/// redeemed, and each allowed to reach the other.
pub fn pair_decision(
    first: i64,
    second: i64,
    first_is_server: bool,
    second_is_server: bool,
    enabled_and_redeemed: bool,
    mutually_allowed: bool,
) -> (r: Result<(), MailboxError>)
    ensures
        r is Ok <==> pair_ids_ok(first, second) && !first_is_server && !second_is_server
            && enabled_and_redeemed && mutually_allowed,
        r is Err ==> r == Err::<(), MailboxError>(MailboxError::Unauthorized),
{
    if first <= 0 || second <= 0 || first == second || first_is_server || second_is_server {
        return Err(MailboxError::Unauthorized);
    }
    if !enabled_and_redeemed || !mutually_allowed {
        return Err(MailboxError::Unauthorized);
    }
    Ok(())
}

/// The checks on a submitted message before any record is read: its shape,
/// and that it is sent by the caller `id` in the pair with `other`, the
/// lower identifier initiating.
pub open spec fn submission_check(m: Message, id: i64, other: i64) -> Result<Kind, MailboxError> {
    match shape(m) {
        Err(e) => Err(MailboxError::Protocol(e)),
        Ok(kind) => if m.sender_id@ != id || m.initiator_id@ != (if id < other {
            id
        } else {
            other
        }) || m.responder_id@ != (if id < other {
            other
        } else {
            id
        }) {
            Err(MailboxError::Unauthorized)
        } else {
            Ok(kind)
        },
    }
}

pub fn check_submission(message: &Message, id: i64, other: i64) -> (r: Result<Kind, MailboxError>)
    requires
        pair_ids_ok(id, other),
    ensures
        r == submission_check(*message, id, other),
{
    let kind = match message.validate_shape() {
        Ok(k) => k,
        Err(e) => return Err(MailboxError::Protocol(e)),
    };
    let low = if id < other {
        id
    } else {
        other
    };
    let high = if id < other {
        other
    } else {
        id
    };
    if message.sender_id.get() != id as u64 || message.initiator_id.get() != low as u64
        || message.responder_id.get() != high as u64 {
        return Err(MailboxError::Unauthorized);
    }
    Ok(kind)
}

/// The message names this network and the pair's current bundles.
pub open spec fn bundles_current(m: Message, network_id: Binary<16>, first: Bundle, second: Bundle) -> bool {
    m.network_id == network_id && m.initiator_bundle_id == first.bundle_id && m.responder_bundle_id
        == second.bundle_id
}

pub fn check_bundles(message: &Message, network_id: &Binary<16>, first: &Bundle, second: &Bundle) -> (r:
    Result<(), MailboxError>)
    ensures
        r is Ok <==> bundles_current(*message, *network_id, *first, *second),
        r is Err ==> r == Err::<(), MailboxError>(MailboxError::Conflict),
{
    if !crate::protocol::same_bytes(&message.network_id.0, &network_id.0)
        || !crate::protocol::same_bytes(&message.initiator_bundle_id.0, &first.bundle_id.0)
        || !crate::protocol::same_bytes(&message.responder_bundle_id.0, &second.bundle_id.0) {
        return Err(MailboxError::Conflict);
    }
    Ok(())
}

/// The index of the record for the bundle pair, if one is stored.
pub fn find_record(records: &Vec<Exchange>, first: &Binary<16>, second: &Binary<16>) -> (r: Option<
    usize,
>)
    ensures
        match r {
            Some(i) => i < records@.len() && records@[i as int].initiator_bundle_id == *first
                && records@[i as int].responder_bundle_id == *second,
            None => forall|i: int|
                0 <= i < records@.len() ==> !((#[trigger] records@[i]).initiator_bundle_id == *first
                    && records@[i].responder_bundle_id == *second),
        },
{
    let mut i: usize = 0;
    while i < records.len()
        invariant
            i <= records@.len(),
            forall|j: int|
                0 <= j < i ==> !((#[trigger] records@[j]).initiator_bundle_id == *first
                    && records@[j].responder_bundle_id == *second),
        decreases records@.len() - i,
    {
        let r = &records[i];
        if crate::protocol::same_bytes(&r.initiator_bundle_id.0, &first.0)
            && crate::protocol::same_bytes(&r.responder_bundle_id.0, &second.0) {
            return Some(i);
        }
        i += 1;
    }
    None
}

/// What a submission did to an existing record.
#[derive(Clone, Copy, Debug, PartialEq, Eq, Structural)]
pub enum Continued {
    /// An identical retry of an accepted message: the record is returned as is.
    Retry,
    /// The message advanced the record.
    Advanced,
    /// The message is for a later sequence: it must open a new exchange.
    Later,
}

/// Whether `receipts` holds a receipt of the same sender and type.
pub open spec fn duplicate_receipt(receipts: Seq<MessageDigest>, m: Message) -> bool {
    exists|i: int|
        0 <= i < receipts.len() && (#[trigger] receipts[i]).sender_id@ == m.sender_id@
            && receipts[i].message_type == m.message_type
}

pub open spec fn has_receipt(receipts: Seq<MessageDigest>, d: MessageDigest) -> bool {
    exists|i: int| 0 <= i < receipts.len() && #[trigger] receipts[i] == d
}

fn same_digest(a: &MessageDigest, b: &MessageDigest) -> (r: bool)
    ensures
        r == (*a == *b),
{
    proof {
        crate::protocol::lemma_number_view_injective(a.sender_id, b.sender_id);
    }
    a.sender_id.get() == b.sender_id.get() && a.message_type == b.message_type
        && crate::protocol::same_bytes(&a.digest.0, &b.digest.0)
}

fn receipt_state(receipts: &Vec<MessageDigest>, digest: &MessageDigest, message: &Message) -> (r: (
    bool,
    bool,
))
    ensures
        r.0 == has_receipt(receipts@, *digest),
        r.1 == duplicate_receipt(receipts@, *message),
{
    let mut seen = false;
    let mut duplicate = false;
    let mut i: usize = 0;
    while i < receipts.len()
        invariant
            i <= receipts@.len(),
            seen == exists|j: int| 0 <= j < i && #[trigger] receipts@[j] == *digest,
            duplicate == exists|j: int|
                0 <= j < i && (#[trigger] receipts@[j]).sender_id@ == message.sender_id@
                    && receipts@[j].message_type == message.message_type,
        decreases receipts@.len() - i,
    {
        let r = &receipts[i];
        if same_digest(r, digest) {
            seen = true;
        }
        if r.sender_id.get() == message.sender_id.get() && r.message_type == message.message_type {
            duplicate = true;
        }
        proof {
            if seen {
                if receipts@[i as int] == *digest {
                    assert(receipts@[i as int] == *digest);
                }
            }
        }
        i += 1;
    }
    (seen, duplicate)
}

/// The outcome of authenticating `m` against the transcript `rec` holds,
/// when hashing that transcript gives `hash` and verifying the signature
/// gives `signature_check`.
pub open spec fn record_authentication(
    rec: Exchange,
    m: Message,
    hash: Result<Seq<u8>, Error>,
    signature_check: Result<(), Error>,
) -> Result<(), Error> {
    match rec.transcript {
        Some(t) => crate::protocol::authentication(m, t, hash, signature_check),
        None => Ok(()),
    }
}

/// The outcome of a submission to the stored record `rec` when
/// authenticating the message against the record's transcript gives
/// `authenticated`.
pub open spec fn continue_outcome(
    rec: Exchange,
    message: Message,
    kind: Kind,
    digest: MessageDigest,
    sender_is_initiator: bool,
    authenticated: Result<(), Error>,
) -> Result<Continued, MailboxError> {
    if message.sequence@ < rec.sequence@ {
        Err(MailboxError::Conflict)
    } else if message.sequence@ > rec.sequence@ {
        Ok(Continued::Later)
    } else if message.exchange_id != rec.exchange_id || message.transcript_hash
        != rec.transcript_hash {
        Err(MailboxError::Conflict)
    } else if has_receipt(rec.receipts@, digest) {
        Ok(Continued::Retry)
    } else if is_terminal(rec.decision.phase) || duplicate_receipt(rec.receipts@, message) {
        Err(MailboxError::Conflict)
    } else if rec.transcript is None {
        Err(MailboxError::Unavailable)
    } else {
        match authenticated {
            Err(e) => Err(MailboxError::Protocol(e)),
            Ok(()) => if may_advance(rec.decision, kind, sender_is_initiator) {
                Ok(Continued::Advanced)
            } else {
                Err(MailboxError::Protocol(Error::Conflict))
            },
        }
    }
}

/// `continue_exchange` once the message was authenticated against the
/// record's transcript with outcome `authenticated`. Applies a submission
/// to the stored record of its bundle pair. An older
/// sequence, a different exchange or transcript under the same sequence, a
/// terminal record, or a second message of the same type from the same
/// sender is a conflict; an identical retry changes nothing; a message that
/// authenticates and is a legal next step is appended with its receipt and
/// the record compacted once terminal.
pub fn continue_given(
    record: &mut Exchange,
    message: &Message,
    kind: Kind,
    digest: MessageDigest,
    sender_is_initiator: bool,
    authenticated: Result<(), Error>,
) -> (r: Result<Continued, MailboxError>)
    ensures
        r == continue_outcome(*old(record), *message, kind, digest, sender_is_initiator, authenticated),
        message.sequence@ < old(record).sequence@ ==> r == Err::<Continued, MailboxError>(
            MailboxError::Conflict,
        ),
        message.sequence@ > old(record).sequence@ ==> r == Ok::<Continued, MailboxError>(
            Continued::Later,
        ),
        message.sequence@ == old(record).sequence@ && (message.exchange_id
            != old(record).exchange_id || message.transcript_hash != old(record).transcript_hash)
            ==> r == Err::<Continued, MailboxError>(MailboxError::Conflict),
        r is Ok && !(r == Ok::<Continued, MailboxError>(Continued::Advanced)) ==> *final(record)
            == *old(record),
        r == Ok::<Continued, MailboxError>(Continued::Retry) ==> has_receipt(
            old(record).receipts@,
            digest,
        ),
        message.sequence@ == old(record).sequence@ && message.exchange_id == old(record).exchange_id
            && message.transcript_hash == old(record).transcript_hash && has_receipt(
            old(record).receipts@,
            digest,
        ) ==> r == Ok::<Continued, MailboxError>(Continued::Retry),
        r is Err ==> final(record).decision == old(record).decision && final(record).messages@
            == old(record).messages@ && final(record).receipts@ == old(record).receipts@,
        r == Ok::<Continued, MailboxError>(Continued::Advanced) ==> {
            &&& !is_terminal(old(record).decision.phase)
            &&& !duplicate_receipt(old(record).receipts@, *message)
            &&& may_advance(old(record).decision, kind, sender_is_initiator)
            &&& final(record).decision.phase == crate::protocol::phase_after(
                old(record).decision,
                kind,
                sender_is_initiator,
            )
            &&& final(record).receipts@ == old(record).receipts@.push(digest)
            &&& final(record).sequence == old(record).sequence
            &&& final(record).exchange_id == old(record).exchange_id
            &&& final(record).transcript_hash == old(record).transcript_hash
        },
{
    let seq = message.sequence.get();
    let current = record.sequence.get();
    if seq < current {
        return Err(MailboxError::Conflict);
    }
    if seq > current {
        return Ok(Continued::Later);
    }
    if !crate::protocol::same_bytes(&message.exchange_id.0, &record.exchange_id.0)
        || !crate::protocol::same_bytes(&message.transcript_hash.0, &record.transcript_hash.0) {
        return Err(MailboxError::Conflict);
    }
    let (seen, duplicate) = receipt_state(&record.receipts, &digest, message);
    if seen {
        return Ok(Continued::Retry);
    }
    if record.decision.terminal() || duplicate {
        return Err(MailboxError::Conflict);
    }
    if record.transcript.is_none() {
        return Err(MailboxError::Unavailable);
    }
    match authenticated {
        Ok(()) => {},
        Err(e) => return Err(MailboxError::Protocol(e)),
    }
    match record.decision.advance(kind, sender_is_initiator) {
        Ok(()) => {},
        Err(e) => return Err(MailboxError::Protocol(e)),
    }
    record.messages.push(*message);
    record.receipts.push(digest);
    record.compact();
    Ok(Continued::Advanced)
}

/// Applies a submission to the stored record of its bundle pair: the
/// message is authenticated against the record's transcript only when
/// every check before that passes, and `continue_given` decides the rest.
pub fn continue_exchange<B: Bridge>(
    record: &mut Exchange,
    message: &Message,
    kind: Kind,
    digest: MessageDigest,
    sender_is_initiator: bool,
    bridge: &B,
) -> (r: Result<Continued, MailboxError>)
    ensures
        exists|hash: Result<Seq<u8>, Error>, signature_check: Result<(), Error>|
            r == continue_outcome(
                *old(record),
                *message,
                kind,
                digest,
                sender_is_initiator,
                #[trigger] record_authentication(*old(record), *message, hash, signature_check),
            ),
        r is Ok && !(r == Ok::<Continued, MailboxError>(Continued::Advanced)) ==> *final(record)
            == *old(record),
        r is Err ==> final(record).decision == old(record).decision && final(record).messages@
            == old(record).messages@ && final(record).receipts@ == old(record).receipts@,
        r == Ok::<Continued, MailboxError>(Continued::Advanced) ==> {
            &&& final(record).decision.phase == crate::protocol::phase_after(
                old(record).decision,
                kind,
                sender_is_initiator,
            )
            &&& final(record).receipts@ == old(record).receipts@.push(digest)
            &&& final(record).sequence == old(record).sequence
            &&& final(record).exchange_id == old(record).exchange_id
            &&& final(record).transcript_hash == old(record).transcript_hash
            // The message was authenticated by the bridge against the
            // record's transcript.
            &&& old(record).transcript matches Some(t) && {
                &&& hashes_to(bridge, transcript_bytes(t), Ok(message.transcript_hash.0))
                &&& verifies_to(
                    bridge,
                    signer(*message, t).pq_sig_public_key@,
                    message.signature@,
                    envelope_bytes(*message) + message.tag@,
                    Ok(()),
                )
            }
        },
{
    let (seen, duplicate) = receipt_state(&record.receipts, &digest, message);
    let checked = message.sequence.get() == record.sequence.get()
        && crate::protocol::same_bytes(&message.exchange_id.0, &record.exchange_id.0)
        && crate::protocol::same_bytes(&message.transcript_hash.0, &record.transcript_hash.0)
        && !seen && !record.decision.terminal() && !duplicate;
    let ghost mut hash: Result<Seq<u8>, Error> = Err(Error::Invalid);
    let ghost mut signature_check: Result<(), Error> = Ok(());
    let authenticated = match &record.transcript {
        Some(t) => if checked {
            let a = message.authenticate(t, bridge);
            proof {
                let (h, sc) = choose|h: Result<Seq<u8>, Error>, sc: Result<(), Error>|
                    a == crate::protocol::authentication(*message, *t, h, sc);
                hash = h;
                signature_check = sc;
            }
            a
        } else {
            Ok(())
        },
        None => Ok(()),
    };
    let ghost before = *record;
    let r = continue_given(record, message, kind, digest, sender_is_initiator, authenticated);
    proof {
        let claimed = record_authentication(before, *message, hash, signature_check);
        assert(continue_outcome(before, *message, kind, digest, sender_is_initiator, authenticated)
            == continue_outcome(before, *message, kind, digest, sender_is_initiator, claimed));
    }
    r
}

/// Delivering a message again after it advanced a record is an identical
/// retry, whatever the authentication of the second delivery gives: the
/// record keeps its sequence, exchange and transcript hash and now holds
/// the message's receipt.
pub proof fn lemma_redelivery_is_a_retry(
    rec: Exchange,
    after: Exchange,
    message: Message,
    kind: Kind,
    digest: MessageDigest,
    sender_is_initiator: bool,
    first: Result<(), Error>,
    second: Result<(), Error>,
)
    requires
        continue_outcome(rec, message, kind, digest, sender_is_initiator, first) == Ok::<
            Continued,
            MailboxError,
        >(Continued::Advanced),
        after.sequence == rec.sequence,
        after.exchange_id == rec.exchange_id,
        after.transcript_hash == rec.transcript_hash,
        after.receipts@ == rec.receipts@.push(digest),
    ensures
        continue_outcome(after, message, kind, digest, sender_is_initiator, second) == Ok::<
            Continued,
            MailboxError,
        >(Continued::Retry),
{
    assert(after.receipts@[rec.receipts@.len() as int] == digest);
}

/// Whether every stored record of the pair is terminal.
pub open spec fn all_terminal(records: Seq<Exchange>) -> bool {
    forall|i: int| 0 <= i < records.len() ==> is_terminal((#[trigger] records[i]).decision.phase)
}

fn records_terminal(records: &Vec<Exchange>) -> (r: bool)
    ensures
        r == all_terminal(records@),
{
    let mut i: usize = 0;
    while i < records.len()
        invariant
            i <= records@.len(),
            forall|j: int| 0 <= j < i ==> is_terminal((#[trigger] records@[j]).decision.phase),
        decreases records@.len() - i,
    {
        if !records[i].decision.terminal() {
            return false;
        }
        i += 1;
    }
    true
}

/// The transcript a proposal opens: `None` when it lacks the operator PSK
/// identifier or the ciphertext.
pub open spec fn opening_transcript(network_id: Binary<16>, message: Message, first: Bundle, second: Bundle) -> Option<Transcript> {
    if message.operator_psk_id is None || message.ciphertext is None {
        None
    } else {
        Some(
            Transcript {
                network_id: network_id,
                initiator_id: message.initiator_id,
                responder_id: message.responder_id,
                initiator: first,
                responder: second,
                sequence: message.sequence,
                exchange_id: message.exchange_id,
                operator_psk_id: message.operator_psk_id->0,
                ciphertext: message.ciphertext->0,
            },
        )
    }
}

/// Whether a new exchange was opened, or the error.
pub open spec fn opened(r: Result<Exchange, MailboxError>) -> Result<(), MailboxError> {
    match r {
        Ok(_) => Ok(()),
        Err(e) => Err(e),
    }
}

/// The outcome of opening an exchange, given the outcomes of validating
/// the opening transcript `t`, authenticating the proposal against it and
/// hashing it: anything but a proposal after only terminal records is a
/// conflict; then the capacity; a proposal without its transcript fields
/// is an invalid query; any of the three outcomes that failed is a
/// protocol error; a deadline past the clock's range is an invalid query.
pub open spec fn open_outcome(
    records: Seq<Exchange>,
    kind: Kind,
    capacity: Result<(), MailboxError>,
    t: Option<Transcript>,
    validated: Result<(), Error>,
    authenticated: Result<(), Error>,
    hash: Result<Seq<u8>, Error>,
    now: u64,
) -> Result<(), MailboxError> {
    if kind != Kind::Propose || !all_terminal(records) {
        Err(MailboxError::Conflict)
    } else if capacity is Err {
        Err(capacity->Err_0)
    } else if t is None {
        Err(MailboxError::InvalidQuery)
    } else if validated is Err {
        Err(MailboxError::Protocol(validated->Err_0))
    } else if authenticated is Err {
        Err(MailboxError::Protocol(authenticated->Err_0))
    } else if hash is Err {
        Err(MailboxError::Protocol(hash->Err_0))
    } else if now + PREPARE_TTL > u64::MAX {
        Err(MailboxError::InvalidQuery)
    } else {
        Ok(())
    }
}

/// The outcome of `open_exchange` when the bridge answers the transcript
/// checks with `x1`, `s1` (initiator bundle), `x2`, `s2` (responder
/// bundle) and `e` (ephemeral key), the proposal's authentication with a
/// transcript hash `auth_hash` and signature check `sc`, and the hash
/// taken for the record with `hash`.
pub open spec fn opening(
    records: Seq<Exchange>,
    kind: Kind,
    capacity: Result<(), MailboxError>,
    t: Option<Transcript>,
    message: Message,
    checks: (Result<(), Error>, Result<(), Error>, Result<(), Error>, Result<(), Error>, Result<(), Error>),
    auth_hash: Result<Seq<u8>, Error>,
    sc: Result<(), Error>,
    hash: Result<Seq<u8>, Error>,
    now: u64,
) -> Result<(), MailboxError> {
    let (x1, s1, x2, s2, e) = checks;
    match t {
        None => open_outcome(records, kind, capacity, t, Ok(()), Ok(()), Ok(Seq::empty()), now),
        Some(tr) => open_outcome(
            records,
            kind,
            capacity,
            t,
            crate::protocol::transcript_check(
                tr,
                crate::protocol::bundle_check(tr.initiator, x1, s1),
                crate::protocol::bundle_check(tr.responder, x2, s2),
                e,
            ),
            crate::protocol::authentication(message, tr, auth_hash, sc),
            hash,
            now,
        ),
    }
}

/// A proposal delivered again after it opened an exchange is an identical
/// retry, whatever the second delivery's authentication gives, where the
/// bridge's hash gives one outcome per input: the opened record holds the
/// proposal's sequence, exchange and receipt, and its transcript hash and
/// the proposal's are both the hash of the record's transcript.
pub proof fn lemma_redelivered_proposal_is_a_retry<B: Bridge>(
    bridge: &B,
    record: Exchange,
    message: Message,
    kind: Kind,
    digest: MessageDigest,
    sender_is_initiator: bool,
    again: Result<(), Error>,
)
    requires
        crate::crypto::hash_is_function(bridge),
        record.transcript is Some,
        hashes_to(bridge, transcript_bytes(record.transcript->0), Ok(record.transcript_hash.0)),
        hashes_to(bridge, transcript_bytes(record.transcript->0), Ok(message.transcript_hash.0)),
        record.sequence == message.sequence,
        record.exchange_id == message.exchange_id,
        record.receipts@ == seq![digest],
    ensures
        continue_outcome(record, message, kind, digest, sender_is_initiator, again) == Ok::<
            Continued,
            MailboxError,
        >(Continued::Retry),
{
    crate::crypto::lemma_one_hash(
        bridge,
        transcript_bytes(record.transcript->0),
        Ok(record.transcript_hash.0),
        Ok(message.transcript_hash.0),
    );
    assert(record.transcript_hash.0 == message.transcript_hash.0);
    assert(record.receipts@[0] == digest);
}

/// `open_exchange` once the opening transcript was validated with outcome
/// `validated`, the proposal authenticated against it with outcome
/// `authenticated`, and the transcript hashed with outcome `hash`. Opens a
/// new exchange for a proposal, once every earlier record of the
/// pair is terminal and `capacity` (the database and active-exchange
/// budgets) allows it. The transcript is built from the message and the
/// pair's current bundles, validated, and the proposal authenticated
/// against it; the record starts proposed, expiring `PREPARE_TTL` seconds
/// after `now`, with the proposal and its receipt.
pub fn open_given(
    records: &Vec<Exchange>,
    kind: Kind,
    capacity: Result<(), MailboxError>,
    network_id: Binary<16>,
    message: &Message,
    first: &Bundle,
    second: &Bundle,
    digest: MessageDigest,
    now: u64,
    validated: Result<(), Error>,
    authenticated: Result<(), Error>,
    hash: Result<[u8; 32], Error>,
) -> (r: Result<Exchange, MailboxError>)
    ensures
        opened(r) == open_outcome(
            records@,
            kind,
            capacity,
            opening_transcript(network_id, *message, *first, *second),
            validated,
            authenticated,
            match hash {
                Ok(h) => Ok(h@),
                Err(e) => Err(e),
            },
            now,
        ),
        r matches Ok(e) ==> hash matches Ok(h) && e.transcript_hash@ == h@,
        kind != Kind::Propose || !all_terminal(records@) ==> r == Err::<Exchange, MailboxError>(
            MailboxError::Conflict,
        ),
        kind == Kind::Propose && all_terminal(records@) && capacity is Err ==> r == match capacity {
            Err(e) => Err::<Exchange, MailboxError>(e),
            Ok(_) => Err(MailboxError::Unavailable),
        },
        r matches Ok(e) ==> {
            &&& e.transcript matches Some(t) && {
                &&& t.network_id == network_id
                &&& t.initiator == *first
                &&& t.responder == *second
                &&& t.initiator_id == message.initiator_id
                &&& t.responder_id == message.responder_id
                &&& t.sequence == message.sequence
                &&& t.exchange_id == message.exchange_id
                &&& Some(t.operator_psk_id) == message.operator_psk_id
                &&& Some(t.ciphertext) == message.ciphertext
            }
            &&& e.decision.phase == Phase::Proposed
            &&& e.created_at == now
            &&& e.prepare_expires_at == now + PREPARE_TTL
            &&& e.messages@ == seq![*message]
            &&& e.receipts@ == seq![digest]
            &&& e.termination is None
            &&& e.sequence == message.sequence
            &&& e.exchange_id == message.exchange_id
            &&& e.network_id == network_id
            &&& e.initiator_id == message.initiator_id
            &&& e.responder_id == message.responder_id
            &&& e.initiator_bundle_id == first.bundle_id
            &&& e.responder_bundle_id == second.bundle_id
            &&& e.decision.phase == Phase::Proposed
            &&& e.decision.installed@ == seq![false, false]
            &&& e.decision.confirmed@ == seq![false, false]
        },
{
    if kind != Kind::Propose || !records_terminal(records) {
        return Err(MailboxError::Conflict);
    }
    capacity?;
    let operator_psk_id = match message.operator_psk_id {
        Some(id) => id,
        None => return Err(MailboxError::InvalidQuery),
    };
    let ciphertext = match message.ciphertext {
        Some(c) => c,
        None => return Err(MailboxError::InvalidQuery),
    };
    let transcript = Transcript {
        network_id: network_id,
        initiator_id: message.initiator_id,
        responder_id: message.responder_id,
        initiator: *first,
        responder: *second,
        sequence: message.sequence,
        exchange_id: message.exchange_id,
        operator_psk_id: operator_psk_id,
        ciphertext: ciphertext,
    };
    assert(opening_transcript(network_id, *message, *first, *second) == Some(transcript));
    match validated {
        Ok(()) => {},
        Err(e) => return Err(MailboxError::Protocol(e)),
    }
    match authenticated {
        Ok(()) => {},
        Err(e) => return Err(MailboxError::Protocol(e)),
    }
    let hash = match hash {
        Ok(h) => h,
        Err(e) => return Err(MailboxError::Protocol(e)),
    };
    let expires = match now.checked_add(PREPARE_TTL) {
        Some(t) => t,
        None => return Err(MailboxError::InvalidQuery),
    };
    let mut messages: Vec<Message> = Vec::new();
    messages.push(*message);
    let mut receipts: Vec<MessageDigest> = Vec::new();
    receipts.push(digest);
    Ok(
        Exchange {
            network_id: transcript.network_id,
            initiator_id: transcript.initiator_id,
            responder_id: transcript.responder_id,
            initiator_bundle_id: transcript.initiator.bundle_id,
            responder_bundle_id: transcript.responder.bundle_id,
            sequence: transcript.sequence,
            exchange_id: transcript.exchange_id,
            transcript_hash: Binary(hash),
            decision: Decision::new(),
            created_at: now,
            prepare_expires_at: expires,
            transcript: Some(transcript),
            messages: messages,
            receipts: receipts,
            termination: None,
        },
    )
}

/// Opens a new exchange for a proposal, once every earlier record of the
/// pair is terminal and `capacity` (the database and active-exchange
/// budgets) allows it: the transcript built from the message and the
/// pair's current bundles is validated, the proposal authenticated against
/// it and the transcript hashed, each only once the steps before passed;
/// `open_given` decides the rest.
pub fn open_exchange<B: Bridge>(
    records: &Vec<Exchange>,
    kind: Kind,
    capacity: Result<(), MailboxError>,
    network_id: Binary<16>,
    message: &Message,
    first: &Bundle,
    second: &Bundle,
    digest: MessageDigest,
    now: u64,
    bridge: &B,
) -> (r: Result<Exchange, MailboxError>)
    ensures
        exists|
            checks: (Result<(), Error>, Result<(), Error>, Result<(), Error>, Result<(), Error>, Result<(), Error>),
            auth_hash: Result<Seq<u8>, Error>,
            sc: Result<(), Error>,
            hash: Result<Seq<u8>, Error>,
        |
            opened(r) == #[trigger] opening(
                records@,
                kind,
                capacity,
                opening_transcript(network_id, *message, *first, *second),
                *message,
                checks,
                auth_hash,
                sc,
                hash,
                now,
            ),
        kind != Kind::Propose || !all_terminal(records@) ==> r == Err::<Exchange, MailboxError>(
            MailboxError::Conflict,
        ),
        kind == Kind::Propose && all_terminal(records@) && capacity is Err ==> r == Err::<
            Exchange,
            MailboxError,
        >(capacity->Err_0),
        kind == Kind::Propose && all_terminal(records@) && capacity is Ok && opening_transcript(
            network_id,
            *message,
            *first,
            *second,
        ) is None ==> r == Err::<Exchange, MailboxError>(MailboxError::InvalidQuery),
        r matches Ok(e) ==> {
            &&& e.transcript == opening_transcript(network_id, *message, *first, *second)
            &&& e.decision.phase == Phase::Proposed
            &&& e.created_at == now
            &&& e.prepare_expires_at == now + PREPARE_TTL
            &&& e.messages@ == seq![*message]
            &&& e.receipts@ == seq![digest]
            &&& e.termination is None
            &&& e.sequence == message.sequence
            &&& e.exchange_id == message.exchange_id
            &&& e.network_id == network_id
            &&& e.initiator_id == message.initiator_id
            &&& e.responder_id == message.responder_id
            &&& e.initiator_bundle_id == first.bundle_id
            &&& e.responder_bundle_id == second.bundle_id
            &&& e.decision.phase == Phase::Proposed
            &&& e.decision.installed@ == seq![false, false]
            &&& e.decision.confirmed@ == seq![false, false]
            // The record holds the bridge's hash of its transcript, and the
            // proposal was authenticated against that transcript.
            &&& hashes_to(bridge, transcript_bytes(e.transcript->0), Ok(e.transcript_hash.0))
            &&& hashes_to(
                bridge,
                transcript_bytes(e.transcript->0),
                Ok(message.transcript_hash.0),
            )
            &&& verifies_to(
                bridge,
                signer(*message, e.transcript->0).pq_sig_public_key@,
                message.signature@,
                envelope_bytes(*message) + message.tag@,
                Ok(()),
            )
        },
{
    let ghost t = opening_transcript(network_id, *message, *first, *second);
    let ghost mut checks: (Result<(), Error>, Result<(), Error>, Result<(), Error>, Result<(), Error>, Result<(), Error>) = (Ok(()), Ok(()), Ok(()), Ok(()), Ok(()));
    let ghost mut auth_hash: Result<Seq<u8>, Error> = Ok(Seq::empty());
    let ghost mut hash_seen: Result<Seq<u8>, Error> = Ok(Seq::empty());
    let ghost mut sc: Result<(), Error> = Ok(());
    let mut validated: Result<(), Error> = Ok(());
    let mut authenticated: Result<(), Error> = Ok(());
    let mut hash: Result<[u8; 32], Error> = Ok([0u8; 32]);
    let proceed = kind == Kind::Propose && records_terminal(records) && capacity.is_ok();
    if proceed {
        if let (Some(operator_psk_id), Some(ciphertext)) = (message.operator_psk_id, message.ciphertext) {
            let transcript = Transcript {
                network_id: network_id,
                initiator_id: message.initiator_id,
                responder_id: message.responder_id,
                initiator: *first,
                responder: *second,
                sequence: message.sequence,
                exchange_id: message.exchange_id,
                operator_psk_id: operator_psk_id,
                ciphertext: ciphertext,
            };
            assert(t == Some(transcript));
            validated = transcript.validate(bridge);
            proof {
                let c = choose|x1: Result<(), Error>, s1: Result<(), Error>, x2: Result<(), Error>, s2: Result<(), Error>, e: Result<(), Error>|
                    validated == crate::protocol::transcript_check(
                        transcript,
                        crate::protocol::bundle_check(transcript.initiator, x1, s1),
                        crate::protocol::bundle_check(transcript.responder, x2, s2),
                        e,
                    );
                checks = c;
            }
            if validated.is_ok() {
                authenticated = message.authenticate(&transcript, bridge);
                proof {
                    let (h, s) = choose|h: Result<Seq<u8>, Error>, s: Result<(), Error>|
                        authenticated == crate::protocol::authentication(*message, transcript, h, s);
                    auth_hash = h;
                    sc = s;
                }
                if authenticated.is_ok() {
                    let encoded = transcript.encode();
                    hash = bridge.hash(encoded.as_slice());
                    assert(hashes_to(bridge, transcript_bytes(transcript), hash));
                    proof {
                        hash_seen = match hash {
                            Ok(h) => Ok(h@),
                            Err(e) => Err(e),
                        };
                    }
                }
            }
        }
    }
    let r = open_given(
        records,
        kind,
        capacity,
        network_id,
        message,
        first,
        second,
        digest,
        now,
        validated,
        authenticated,
        hash,
    );
    assert(opened(r) == opening(records@, kind, capacity, t, *message, checks, auth_hash, sc, hash_seen, now));
    proof {
        if r is Ok {
            assert(r->Ok_0.transcript_hash.0 =~= hash->Ok_0);
        }
    }
    r
}

/// The database budget: the file's size plus headroom must stay below the
/// budget less the recovery reserve, the peer and bundle counts within
/// their limits, and a new bundle must leave room in the bundle budget.
pub open spec fn budget_ok(
    pages: u64,
    page_size: u64,
    peers: u32,
    bundles: u32,
    l: Limits,
    new_bundle: bool,
) -> bool {
    let used = if pages * page_size > u64::MAX {
        u64::MAX as int
    } else {
        pages * page_size
    };
    let with_headroom = if used + 32768 > u64::MAX {
        u64::MAX as int
    } else {
        used + 32768
    };
    &&& with_headroom <= l.database_bytes - l.recovery_reserve_bytes
    &&& peers <= l.peer_ids
    &&& bundles <= l.bundle_ids
    &&& !(new_bundle && bundles == l.bundle_ids)
}

pub fn budget(
    pages: u64,
    page_size: u64,
    peers: u32,
    bundles: u32,
    limits: &Limits,
    new_bundle: bool,
) -> (r: Result<(), MailboxError>)
    requires
        limits.database_bytes > limits.recovery_reserve_bytes,
    ensures
        r is Ok <==> budget_ok(pages, page_size, peers, bundles, *limits, new_bundle),
        r is Err ==> r == Err::<(), MailboxError>(MailboxError::RateLimited),
{
    let used: u64 = if page_size != 0 && pages > u64::MAX / page_size {
        assert(pages * page_size > u64::MAX) by (nonlinear_arith)
            requires
                page_size != 0,
                pages > u64::MAX / page_size,
        ;
        u64::MAX
    } else {
        assert(pages * page_size <= u64::MAX) by (nonlinear_arith)
            requires
                page_size == 0 || pages <= u64::MAX / page_size,
        ;
        pages * page_size
    };
    let with_headroom = used.saturating_add(32768);
    if with_headroom > limits.database_bytes - limits.recovery_reserve_bytes || peers
        > limits.peer_ids || bundles > limits.bundle_ids || (new_bundle && bundles
        == limits.bundle_ids) {
        return Err(MailboxError::RateLimited);
    }
    Ok(())
}

/// What a sweep does to one active record: a record whose pair was revoked
/// is aborted as "revoked"; an expired prepare deadline aborts an
/// uncommitted record; a record that ended up terminal is compacted and
/// must be saved (true).
pub fn sweep_record(record: &mut Exchange, now: u64, revoked: bool) -> (r: bool)
    ensures
        r == is_terminal(final(record).decision.phase),
        final(record).decision.phase == if revoked {
            Phase::Aborted
        } else if now >= old(record).prepare_expires_at {
            crate::protocol::expired_phase(old(record).decision.phase)
        } else {
            old(record).decision.phase
        },
        revoked ==> final(record).termination is Some && final(record).termination->0@ == "revoked"@,
        !revoked ==> final(record).termination == old(record).termination,
        r ==> final(record).transcript is None && final(record).messages@.len() == 0,
        final(record).receipts@ == old(record).receipts@,
{
    if revoked {
        record.decision.phase = Phase::Aborted;
        record.termination = Some(String::from_str("revoked"));
    }
    if now >= record.prepare_expires_at {
        record.decision.expire();
    }
    if record.decision.terminal() {
        record.compact();
        true
    } else {
        false
    }
}

/// What the checks of a registration against the caller's current record
/// decided.
#[derive(Clone, Copy, Debug, PartialEq, Eq)]
pub enum RegistrationStep {
    /// An identical retry of an accepted registration: nothing to write.
    Unchanged,
    /// A new revision, `next`, to write once the exchange and budget
    /// checks pass.
    Proceed(Number),
}

/// The revision a registration must carry: the one after the revision it
/// expects to replace, or 1 for a first registration.
pub open spec fn expected_next(request: Registration) -> Option<nat> {
    match request.expected_revision {
        None => Some(1),
        Some(r) => if r@ < crate::protocol::NUMBER_MAX {
            Some((r@ + 1) as nat)
        } else {
            None
        },
    }
}

/// Whether the advertised record is exactly what `request` asks for.
pub open spec fn same_as_request(a: AdvertisedBundle, request: Registration) -> bool {
    a.pq_version == request.pq_version && a.lifecycle == request.lifecycle && a.bundle
        == request.bundle
}

fn matches_request(a: &AdvertisedBundle, request: &Registration) -> (r: bool)
    ensures
        r == same_as_request(*a, *request),
{
    a.pq_version == request.pq_version && a.lifecycle == request.lifecycle && a.bundle.same(
        &request.bundle,
    )
}

/// A registration step as identifiers: `Some(next)` to proceed with
/// revision `next`, `None` for an identical retry.
pub open spec fn step_view(r: Result<RegistrationStep, MailboxError>) -> Result<Option<u64>, MailboxError> {
    match r {
        Ok(RegistrationStep::Proceed(n)) => Ok(Some(n@)),
        Ok(RegistrationStep::Unchanged) => Ok(None),
        Err(e) => Err(e),
    }
}

/// Whether the caller's current revision is the one the request expects.
pub open spec fn expectation_met(current: Option<AdvertisedBundle>, request: Registration) -> bool {
    match current {
        Some(c) => request.expected_revision == Some(c.bundle.bundle_revision),
        None => request.expected_revision is None,
    }
}

/// The outcome of a registration check, given the outcome `validated` of
/// validating the request's bundle: a validation error is a protocol
/// error; a version other than 1, an emergency that is not a retirement,
/// or a caller key that is missing or not the bundle's is an invalid
/// query; an expected revision with no successor is a protocol error; a
/// bundle revision other than the next is a conflict; an identical retry
/// is `Unchanged`; a current revision other than the expected one is a
/// conflict; anything else proceeds with the next revision.
pub open spec fn registration_outcome(
    current: Option<AdvertisedBundle>,
    request: Registration,
    caller_key: Option<[u8; 32]>,
    validated: Result<(), Error>,
) -> Result<Option<u64>, MailboxError> {
    match validated {
        Err(e) => Err(MailboxError::Protocol(e)),
        Ok(()) => if !registration_shape_ok(request) {
            Err(MailboxError::InvalidQuery)
        } else if caller_key is None || caller_key->0@ != request.bundle.wg_public_key@ {
            Err(MailboxError::InvalidQuery)
        } else {
            match expected_next(request) {
                None => Err(MailboxError::Protocol(Error::Invalid)),
                Some(next) => if request.bundle.bundle_revision@ != next {
                    Err(MailboxError::Conflict)
                } else if current is Some && same_as_request(current->0, request) {
                    Ok(None)
                } else if !expectation_met(current, request) {
                    Err(MailboxError::Conflict)
                } else {
                    Ok(Some(next as u64))
                },
            }
        },
    }
}

/// Checks a registration from the caller whose WireGuard key is
/// `caller_key` (`None` when its stored text does not decode) against its
/// current record: a valid bundle for that key, protocol version 1, an
/// emergency only as a retirement, and the revision after the expected one.
/// An identical retry changes nothing; otherwise the current revision must
/// be the expected one.
pub fn registration_check<B: Bridge>(
    current: &Option<AdvertisedBundle>,
    request: &Registration,
    caller_key: Option<[u8; 32]>,
    bridge: &B,
) -> (r: Result<RegistrationStep, MailboxError>)
    ensures
        exists|validated: Result<(), Error>|
            step_view(r) == registration_outcome(*current, *request, caller_key, validated),
        r is Ok ==> step_view(r) == registration_outcome(*current, *request, caller_key, Ok(())),
        crate::crypto::kem_check(request.bundle.pq_kem_public_key@) is Err ==> r == Err::<
            RegistrationStep,
            MailboxError,
        >(MailboxError::Protocol(Error::Invalid)),
{
    let validated = request.bundle.validate(bridge);
    let r = registration_given(current, request, caller_key, validated);
    assert(step_view(r) == registration_outcome(*current, *request, caller_key, validated));
    r
}

/// `registration_check` once the request's bundle was validated with
/// outcome `validated`.
pub fn registration_given(
    current: &Option<AdvertisedBundle>,
    request: &Registration,
    caller_key: Option<[u8; 32]>,
    validated: Result<(), Error>,
) -> (r: Result<RegistrationStep, MailboxError>)
    ensures
        step_view(r) == registration_outcome(*current, *request, caller_key, validated),
        // Compare and swap: a registration proceeds only from the revision
        // it expects, to the one after it.
        r matches Ok(RegistrationStep::Proceed(next)) ==> match *current {
            Some(c) => request.expected_revision == Some(c.bundle.bundle_revision) && next@
                == c.bundle.bundle_revision@ + 1,
            None => request.expected_revision is None && next@ == 1,
        },
{
    match validated {
        Ok(()) => {},
        Err(e) => return Err(MailboxError::Protocol(e)),
    }
    if request.pq_version != 1 || (request.emergency && request.lifecycle != Lifecycle::Retired) {
        return Err(MailboxError::InvalidQuery);
    }
    let key = match caller_key {
        Some(k) => k,
        None => return Err(MailboxError::InvalidQuery),
    };
    if !crate::protocol::same_bytes(&key, &request.bundle.wg_public_key.0) {
        return Err(MailboxError::InvalidQuery);
    }
    let next = match request.expected_revision {
        Some(expected) => match expected.next() {
            Ok(n) => n,
            Err(e) => return Err(MailboxError::Protocol(e)),
        },
        None => match Number::new(1) {
            Ok(n) => n,
            Err(e) => return Err(MailboxError::Protocol(e)),
        },
    };
    if request.bundle.bundle_revision.get() != next.get() {
        return Err(MailboxError::Conflict);
    }
    if let Some(c) = current {
        if matches_request(c, request) {
            return Ok(RegistrationStep::Unchanged);
        }
    }
    let consistent = match (current, request.expected_revision) {
        (Some(c), Some(expected)) => c.bundle.bundle_revision.get() == expected.get(),
        (None, None) => true,
        _ => false,
    };
    proof {
        if let (Some(c), Some(expected)) = (*current, request.expected_revision) {
            crate::protocol::lemma_number_view_injective(c.bundle.bundle_revision, expected);
        }
    }
    if !consistent {
        return Err(MailboxError::Conflict);
    }
    Ok(RegistrationStep::Proceed(next))
}

/// A registration is a compare and swap on the caller's revision. It
/// proceeds only with a valid bundle for the caller's own key, from the
/// revision it expects (none for a first registration) to the one after
/// it, which the bundle carries; a request whose expected revision is not
/// the current one never proceeds, and nothing is written for a request
/// only when it is exactly the current record.
pub proof fn lemma_registration_is_compare_and_swap(
    current: Option<AdvertisedBundle>,
    request: Registration,
    caller_key: Option<[u8; 32]>,
    validated: Result<(), Error>,
)
    ensures
        registration_outcome(current, request, caller_key, validated) matches Ok(Some(next)) ==> {
            &&& validated is Ok
            &&& caller_key matches Some(k) && k@ == request.bundle.wg_public_key@
            &&& request.pq_version == 1
            &&& request.emergency ==> request.lifecycle == Lifecycle::Retired
            &&& next == request.bundle.bundle_revision@
            &&& match current {
                Some(c) => request.expected_revision == Some(c.bundle.bundle_revision) && next
                    == c.bundle.bundle_revision@ + 1,
                None => request.expected_revision is None && next == 1,
            }
        },
        (current matches Some(c) && request.expected_revision != Some(c.bundle.bundle_revision))
            ==> !(registration_outcome(current, request, caller_key, validated) matches Ok(
            Some(_),
        )),
        validated matches Err(e) ==> registration_outcome(current, request, caller_key, validated)
            == Err::<Option<u64>, MailboxError>(MailboxError::Protocol(e)),
        (current is None && request.expected_revision is Some) ==> !(registration_outcome(
            current,
            request,
            caller_key,
            validated,
        ) matches Ok(Some(_))),
        registration_outcome(current, request, caller_key, validated) == Ok::<
            Option<u64>,
            MailboxError,
        >(None) ==> (current matches Some(c) && c.bundle == request.bundle && c.lifecycle
            == request.lifecycle && c.pq_version == request.pq_version),
{
    if let Some(c) = current {
        if let Some(e) = request.expected_revision {
            crate::protocol::lemma_number_view_injective(c.bundle.bundle_revision, e);
        }
    }
}

/// What a registration writes besides the bundle itself.
#[derive(Clone, Copy, Debug, PartialEq, Eq, Structural)]
pub enum RegistrationWrite {
    /// Record the new bundle ID in the never-reused registry.
    Enable,
    /// Terminate every exchange the peer takes part in.
    Retire,
}

/// The outcome of `registration_commit`.
pub open spec fn commit_outcome(
    current: Option<AdvertisedBundle>,
    request: Registration,
    next: Number,
    active: bool,
    budget: Result<(), MailboxError>,
    reused: bool,
) -> Result<RegistrationWrite, MailboxError> {
    if active && !(request.emergency && request.lifecycle == Lifecycle::Retired) {
        Err(MailboxError::Conflict)
    } else if request.lifecycle == Lifecycle::Enabled {
        match budget {
            Err(e) => Err(e),
            Ok(()) => if current is Some && current->0.bundle.bundle_id == request.bundle.bundle_id {
                Err(MailboxError::Conflict)
            } else if reused {
                Err(MailboxError::Conflict)
            } else {
                Ok(RegistrationWrite::Enable)
            },
        }
    } else if current is None {
        Err(MailboxError::Conflict)
    } else if request.bundle != (Bundle { bundle_revision: next, ..current->0.bundle }) {
        Err(MailboxError::Conflict)
    } else {
        Ok(RegistrationWrite::Retire)
    }
}

/// The rest of a registration once its revision checks passed. Active
/// exchanges block it unless it is an emergency retirement. Enabling needs
/// room in the `budget` and a bundle ID never used before (`reused` tells
/// whether the registry holds it). Retiring needs a current bundle and
/// retires exactly that bundle at the `next` revision.
pub fn registration_commit(
    current: &Option<AdvertisedBundle>,
    request: &Registration,
    next: Number,
    active: bool,
    budget: Result<(), MailboxError>,
    reused: bool,
) -> (r: Result<RegistrationWrite, MailboxError>)
    ensures
        r == commit_outcome(*current, *request, next, active, budget, reused),
        active && !(request.emergency && request.lifecycle == Lifecycle::Retired) ==> r == Err::<
            RegistrationWrite,
            MailboxError,
        >(MailboxError::Conflict),
        r == Ok::<RegistrationWrite, MailboxError>(RegistrationWrite::Enable) ==> {
            &&& request.lifecycle == Lifecycle::Enabled
            &&& !active
            &&& budget is Ok
            &&& !reused
            &&& !(current is Some && current->0.bundle.bundle_id == request.bundle.bundle_id)
        },
        r == Ok::<RegistrationWrite, MailboxError>(RegistrationWrite::Retire) ==> {
            &&& request.lifecycle == Lifecycle::Retired
            &&& current is Some
            &&& request.bundle == (Bundle { bundle_revision: next, ..current->0.bundle })
        },
        request.lifecycle == Lifecycle::Retired && current is None && !(active
            && !request.emergency) ==> r == Err::<RegistrationWrite, MailboxError>(
            MailboxError::Conflict,
        ),
{
    if active && !(request.emergency && request.lifecycle == Lifecycle::Retired) {
        return Err(MailboxError::Conflict);
    }
    match request.lifecycle {
        Lifecycle::Enabled => {
            budget?;
            if let Some(c) = current {
                if crate::protocol::same_bytes(&c.bundle.bundle_id.0, &request.bundle.bundle_id.0) {
                    return Err(MailboxError::Conflict);
                }
            }
            if reused {
                return Err(MailboxError::Conflict);
            }
            Ok(RegistrationWrite::Enable)
        },
        Lifecycle::Retired => {
            let c = match current {
                Some(c) => c,
                None => return Err(MailboxError::Conflict),
            };
            let prior = Bundle { bundle_revision: next, ..c.bundle };
            if !prior.same(&request.bundle) {
                return Err(MailboxError::Conflict);
            }
            Ok(RegistrationWrite::Retire)
        },
    }
}

/// Terminates an active record for `reason`: aborted, the reason recorded,
/// the bodies compacted.
pub fn terminate_record(record: &mut Exchange, reason: &str)
    ensures
        final(record).decision.phase == Phase::Aborted,
        final(record).termination is Some && final(record).termination->0@ == reason@,
        final(record).transcript is None,
        final(record).messages@.len() == 0,
        final(record).receipts@ == old(record).receipts@,
        final(record).sequence == old(record).sequence,
        final(record).exchange_id == old(record).exchange_id,
{
    record.decision.phase = Phase::Aborted;
    record.termination = Some(String::from_str(reason));
    record.compact();
}

/// The caller's bundle as an exchange party: advertised, enabled, and for
/// the WireGuard key the directory holds for it (`key`, `None` when that
/// does not decode).
pub fn active_bundle(advertised: Option<AdvertisedBundle>, key: Option<[u8; 32]>) -> (r: Result<
    Bundle,
    MailboxError,
>)
    ensures
        match r {
            Ok(b) => {
                &&& advertised is Some
                &&& advertised->0.lifecycle == Lifecycle::Enabled
                &&& advertised->0.bundle == b
                &&& key is Some
                &&& key->0@ == b.wg_public_key@
            },
            Err(e) => e == MailboxError::Conflict,
        },
        advertised is Some && advertised->0.lifecycle == Lifecycle::Enabled && key is Some
            && key->0@ == advertised->0.bundle.wg_public_key@ ==> r == Ok::<Bundle, MailboxError>(
            advertised->0.bundle,
        ),
{
    let a = match advertised {
        Some(a) => a,
        None => return Err(MailboxError::Conflict),
    };
    if a.lifecycle != Lifecycle::Enabled {
        return Err(MailboxError::Conflict);
    }
    let k = match key {
        Some(k) => k,
        None => return Err(MailboxError::Conflict),
    };
    if !crate::protocol::same_bytes(&k, &a.bundle.wg_public_key.0) {
        return Err(MailboxError::Conflict);
    }
    Ok(a.bundle)
}

/// The server role may be claimed by peer `id` only if no other peer holds
/// it already.
pub fn server_claim(prior: Option<i64>, id: i64) -> (r: Result<(), MailboxError>)
    ensures
        r is Ok <==> !(prior matches Some(p) && p != id),
        r is Err ==> r == Err::<(), MailboxError>(MailboxError::Conflict),
{
    match prior {
        Some(p) => if p != id {
            Err(MailboxError::Conflict)
        } else {
            Ok(())
        },
        None => Ok(()),
    }
}

/// Room for one more active exchange: both peers below their active
/// limit and the server below its own, given the active counts.
pub fn active_room(global: u32, first: u32, second: u32, limits: &Limits) -> (r: Result<
    (),
    MailboxError,
>)
    ensures
        r is Ok <==> global < limits.global_active && first < limits.peer_active && second
            < limits.peer_active,
        r is Err ==> r == Err::<(), MailboxError>(MailboxError::RateLimited),
{
    if first >= limits.peer_active || second >= limits.peer_active || global
        >= limits.global_active {
        return Err(MailboxError::RateLimited);
    }
    Ok(())
}

fn array_of<const N: usize>(v: &[u8]) -> (r: Option<[u8; N]>)
    ensures
        match r {
            Some(a) => v@.len() == N && a@ == v@,
            None => v@.len() != N,
        },
{
    if v.len() != N {
        return None;
    }
    let mut out = [0u8; N];
    let mut i: usize = 0;
    while i < N
        invariant
            i <= N,
            v@.len() == N,
            out@.len() == N,
            forall|j: int| 0 <= j < i ==> out@[j] == v@[j],
        decreases N - i,
    {
        out[i] = v[i];
        i += 1;
    }
    proof {
        assert(out@ =~= v@);
    }
    Some(out)
}

/// A stored bundle row, as the mailbox advertises it: every key of its
/// exact length, a valid revision, a bundle that validates, a known
/// lifecycle and protocol version 1. A row that breaks these makes the
/// service unavailable rather than advertise it; an invalid revision or
/// bundle is a protocol error.
pub fn stored_bundle<B: Bridge>(
    version: u8,
    keys: (&[u8], &[u8], &[u8], &[u8], &[u8]),
    revision: i64,
    lifecycle: &str,
    bridge: &B,
) -> (r: Result<AdvertisedBundle, MailboxError>)
    ensures
        ({
            let (id, wg, kem, x448, sig) = keys;
            id@.len() != 16 || wg@.len() != 32 || kem@.len() != 1568 || x448@.len() != 56
                || sig@.len() != 67 ==> r == Err::<AdvertisedBundle, MailboxError>(
                MailboxError::Unavailable,
            )
        }),
        r matches Ok(a) ==> {
            let (id, wg, kem, x448, sig) = keys;
            &&& a.pq_version == 1 && version == 1
            &&& a.bundle.bundle_id@ == id@
            &&& a.bundle.wg_public_key@ == wg@
            &&& a.bundle.pq_kem_public_key@ == kem@
            &&& a.bundle.pq_x448_public_key@ == x448@
            &&& a.bundle.pq_sig_public_key@ == sig@
            &&& a.bundle.bundle_revision@ == revision
            &&& (lifecycle@ == "enabled"@ && a.lifecycle == Lifecycle::Enabled || lifecycle@
                == "retired"@ && a.lifecycle == Lifecycle::Retired)
        },
        version != 1 && r is Err ==> r == Err::<AdvertisedBundle, MailboxError>(
            MailboxError::Unavailable,
        ) || r matches Err(MailboxError::Protocol(_)),
        !(lifecycle@ == "enabled"@ || lifecycle@ == "retired"@) ==> r is Err,
{
    let (id, wg, kem, x448, sig) = keys;
    let bundle_id = match array_of::<16>(id) {
        Some(a) => a,
        None => return Err(MailboxError::Unavailable),
    };
    let wg_key = match array_of::<32>(wg) {
        Some(a) => a,
        None => return Err(MailboxError::Unavailable),
    };
    let kem_key = match array_of::<1568>(kem) {
        Some(a) => a,
        None => return Err(MailboxError::Unavailable),
    };
    let x448_key = match array_of::<56>(x448) {
        Some(a) => a,
        None => return Err(MailboxError::Unavailable),
    };
    let sig_key = match array_of::<67>(sig) {
        Some(a) => a,
        None => return Err(MailboxError::Unavailable),
    };
    let raw = revision as u64;
    assert(revision < 0 ==> raw > 0x7fff_ffff_ffff_ffffu64) by (bit_vector)
        requires
            raw == revision as u64,
    ;
    assert(revision >= 0 ==> raw == revision) by (bit_vector)
        requires
            raw == revision as u64,
    ;
    let number = match Number::new(raw) {
        Ok(n) => n,
        Err(e) => return Err(MailboxError::Protocol(e)),
    };
    let bundle = Bundle {
        bundle_id: Binary(bundle_id),
        bundle_revision: number,
        wg_public_key: Binary(wg_key),
        pq_kem_public_key: Binary(kem_key),
        pq_x448_public_key: Binary(x448_key),
        pq_sig_public_key: Binary(sig_key),
    };
    match bundle.validate(bridge) {
        Ok(()) => {},
        Err(e) => return Err(MailboxError::Protocol(e)),
    }
    let state = if crate::paging::text_is(lifecycle, "enabled") {
        Lifecycle::Enabled
    } else if crate::paging::text_is(lifecycle, "retired") {
        Lifecycle::Retired
    } else {
        return Err(MailboxError::Unavailable);
    };
    if version != 1 {
        return Err(MailboxError::Unavailable);
    }
    Ok(AdvertisedBundle { pq_version: version, lifecycle: state, bundle: bundle })
}

} // verus!

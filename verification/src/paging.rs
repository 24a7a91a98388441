//! The server's paginated state: keyset cursors authenticated with the
//! server's cursor key, the per-page budgets, the walk over peers, CIDRs
//! and exchanges, and the query forms of the mailbox requests.
use vstd::prelude::*;

use crate::codec::{canonical_base64, same_slice};
use crate::crypto::{tags_to, Bridge, Secret};
use crate::mailbox::MailboxError;
use crate::protocol::{be_bytes, to_be_bytes, Binary};
use crate::Error;

verus! {

/// The 32 signed bytes of a cursor: requester, visibility revision, stage
/// and the last identifier, each big-endian.
pub open spec fn cursor_body(fields: [u64; 4]) -> Seq<u8> {
    be_bytes(fields[0]) + be_bytes(fields[1]) + be_bytes(fields[2]) + be_bytes(fields[3])
}

fn body_bytes(fields: [u64; 4]) -> (r: [u8; 32])
    ensures
        r@ == cursor_body(fields),
{
    let mut out = [0u8; 32];
    let mut k: usize = 0;
    while k < 4
        invariant
            k <= 4,
            out@.len() == 32,
            forall|j: int|
                0 <= j < 8 * k ==> out@[j] == cursor_body(fields)[j],
        decreases 4 - k,
    {
        let chunk = to_be_bytes(fields[k]);
        let mut i: usize = 0;
        while i < 8
            invariant
                i <= 8,
                k < 4,
                out@.len() == 32,
                chunk@ == be_bytes(fields[k as int]),
                forall|j: int|
                    0 <= j < 8 * k + i ==> out@[j] == cursor_body(fields)[j],
            decreases 8 - i,
        {
            out[8 * k + i] = chunk[i];
            proof {
                assert(cursor_body(fields)[8 * k + i] == be_bytes(fields[k as int])[i as int]);
            }
            i += 1;
        }
        k += 1;
    }
    proof {
        assert(out@ =~= cursor_body(fields));
    }
    out
}

/// A cursor's text: the padded base64 of its body followed by the body's
/// HMAC under the cursor key.
pub fn encode_cursor<B: Bridge>(key: &Secret<32>, fields: [u64; 4], bridge: &B) -> (r: Result<
    Vec<u8>,
    MailboxError,
>)
    ensures
        r matches Ok(text) ==> exists|bytes: Seq<u8>|
            canonical_base64(text@, 64) == Some(bytes) && bytes.subrange(0, 32) == cursor_body(
                fields,
            ),
        // The text is the base64 of the body and a 32-byte tag; only the
        // bridge's HMAC can fail.
        r matches Ok(text) ==> exists|tag: [u8; 32]|
            tags_to(bridge, key@, cursor_body(fields), Ok(tag)) && text@
                == crate::codec::base64_text(cursor_body(fields) + tag@),
        r is Err ==> r matches Err(MailboxError::Protocol(_)),
        r matches Err(MailboxError::Protocol(e)) ==> tags_to(
            bridge,
            key@,
            cursor_body(fields),
            Err(e),
        ),
{
    let body = body_bytes(fields);
    let hmac = bridge.hmac(key, &body);
    assert(tags_to(bridge, key@, cursor_body(fields), hmac));
    let tag = match hmac {
        Ok(t) => t,
        Err(e) => return Err(MailboxError::Protocol(e)),
    };
    let mut bytes = [0u8; 64];
    let mut i: usize = 0;
    while i < 64
        invariant
            i <= 64,
            bytes@.len() == 64,
            forall|j: int| 0 <= j < i ==> bytes@[j] == (body@ + tag@)[j],
        decreases 64 - i,
    {
        bytes[i] = if i < 32 {
            body[i]
        } else {
            tag[i - 32]
        };
        i += 1;
    }
    proof {
        assert(bytes@ =~= body@ + tag@);
        assert(bytes@.subrange(0, 32) =~= body@);
    }
    let text = Binary(bytes).encode_text();
    assert(text@ == crate::codec::base64_text(cursor_body(fields) + tag@));
    match Binary::<64>::decode_text(text.as_slice()) {
        Ok(check) => {
            if same_slice(&check.0, &bytes) {
                Ok(text)
            } else {
                Err(MailboxError::Unavailable)
            }
        },
        Err(_) => Err(MailboxError::Unavailable),
    }
}

/// The `u64` whose big-endian bytes are `b`.
fn from_be(b: [u8; 8]) -> (r: u64)
    ensures
        be_bytes(r) == b@,
{
    let (b0, b1, b2, b3, b4, b5, b6, b7) = (b[0], b[1], b[2], b[3], b[4], b[5], b[6], b[7]);
    let r: u64 = ((b0 as u64) << 56u64) | ((b1 as u64) << 48u64) | ((b2 as u64) << 40u64) | ((
    b3 as u64) << 32u64) | ((b4 as u64) << 24u64) | ((b5 as u64) << 16u64) | ((b6 as u64)
        << 8u64) | (b7 as u64);
    assert((r >> 56u64) as u8 == b0 && (r >> 48u64) as u8 == b1 && (r >> 40u64) as u8 == b2 && (r
        >> 32u64) as u8 == b3) by (bit_vector)
        requires
            r == ((b0 as u64) << 56u64) | ((b1 as u64) << 48u64) | ((b2 as u64) << 40u64) | ((
            b3 as u64) << 32u64) | ((b4 as u64) << 24u64) | ((b5 as u64) << 16u64) | ((
            b6 as u64) << 8u64) | (b7 as u64),
    ;
    assert((r >> 24u64) as u8 == b4 && (r >> 16u64) as u8 == b5 && (r >> 8u64) as u8 == b6
        && r as u8 == b7) by (bit_vector)
        requires
            r == ((b0 as u64) << 56u64) | ((b1 as u64) << 48u64) | ((b2 as u64) << 40u64) | ((
            b3 as u64) << 32u64) | ((b4 as u64) << 24u64) | ((b5 as u64) << 16u64) | ((
            b6 as u64) << 8u64) | (b7 as u64),
    ;
    assert(be_bytes(r) =~= b@);
    r
}

/// The four big-endian fields of a cursor body.
fn fields_of(bytes: &[u8; 64]) -> (r: [u64; 4])
    ensures
        cursor_body(r) == bytes@.subrange(0, 32),
{
    let mut out = [0u64; 4];
    let mut k: usize = 0;
    while k < 4
        invariant
            k <= 4,
            out@.len() == 4,
            bytes@.len() == 64,
            forall|j: int| 0 <= j < k ==> be_bytes(#[trigger] out@[j]) == bytes@.subrange(8 * j, 8 * j + 8),
        decreases 4 - k,
    {
        let chunk: [u8; 8] = [
            bytes[8 * k],
            bytes[8 * k + 1],
            bytes[8 * k + 2],
            bytes[8 * k + 3],
            bytes[8 * k + 4],
            bytes[8 * k + 5],
            bytes[8 * k + 6],
            bytes[8 * k + 7],
        ];
        let v = from_be(chunk);
        proof {
            assert(chunk@ =~= bytes@.subrange(8 * k, 8 * k + 8));
        }
        out[k] = v;
        k += 1;
    }
    proof {
        assert(be_bytes(out@[0]) == bytes@.subrange(0, 8));
        assert(be_bytes(out@[1]) == bytes@.subrange(8, 16));
        assert(be_bytes(out@[2]) == bytes@.subrange(16, 24));
        assert(be_bytes(out@[3]) == bytes@.subrange(24, 32));
        assert(cursor_body(out) =~= bytes@.subrange(0, 32));
    }
    out
}

/// Different values have different big-endian bytes.
pub proof fn lemma_be_bytes_injective(a: u64, b: u64)
    requires
        be_bytes(a) == be_bytes(b),
    ensures
        a == b,
{
    assert(be_bytes(a)[0] == be_bytes(b)[0] && be_bytes(a)[1] == be_bytes(b)[1]
        && be_bytes(a)[2] == be_bytes(b)[2] && be_bytes(a)[3] == be_bytes(b)[3]);
    assert(be_bytes(a)[4] == be_bytes(b)[4] && be_bytes(a)[5] == be_bytes(b)[5]
        && be_bytes(a)[6] == be_bytes(b)[6] && be_bytes(a)[7] == be_bytes(b)[7]);
    assert(a == b) by (bit_vector)
        requires
            (a >> 56u64) as u8 == (b >> 56u64) as u8,
            (a >> 48u64) as u8 == (b >> 48u64) as u8,
            (a >> 40u64) as u8 == (b >> 40u64) as u8,
            (a >> 32u64) as u8 == (b >> 32u64) as u8,
            (a >> 24u64) as u8 == (b >> 24u64) as u8,
            (a >> 16u64) as u8 == (b >> 16u64) as u8,
            (a >> 8u64) as u8 == (b >> 8u64) as u8,
            a as u8 == b as u8,
    ;
}

/// The value a cursor body carries in its 8-byte slot `k`.
pub open spec fn cursor_field(body: Seq<u8>, k: int) -> u64 {
    choose|v: u64| be_bytes(v) == body.subrange(8 * k, 8 * k + 8)
}

/// A cursor result as the stage and last identifier it yields.
pub open spec fn cursor_view(r: Result<(u64, i64), MailboxError>) -> Result<(u64, u64), MailboxError> {
    match r {
        Ok((stage, after)) => Ok((stage, after as u64)),
        Err(e) => Err(e),
    }
}

/// The outcome of decoding cursor text `value` for `requester` at
/// `revision`, when the HMAC of the decoded body under the cursor key is
/// `tag`: text that is not canonical base64 of 64 bytes is an invalid
/// query; an HMAC failure is a protocol error; a tag other than the
/// cursor's is an invalid query; a cursor of another requester or
/// revision is a conflict; a stage above 2 or an identifier beyond `i64`
/// is an invalid query; otherwise the stage and the last identifier.
pub open spec fn cursor_decision(
    value: Seq<u8>,
    requester: u64,
    revision: u64,
    tag: Result<Seq<u8>, Error>,
) -> Result<(u64, u64), MailboxError> {
    match canonical_base64(value, 64) {
        None => Err(MailboxError::InvalidQuery),
        Some(bytes) => match tag {
            Err(e) => Err(MailboxError::Protocol(e)),
            Ok(t) => {
                let body = bytes.subrange(0, 32);
                if t != bytes.subrange(32, 64) {
                    Err(MailboxError::InvalidQuery)
                } else if cursor_field(body, 0) != requester || cursor_field(body, 1) != revision {
                    Err(MailboxError::Conflict)
                } else if cursor_field(body, 2) > 2 || cursor_field(body, 3)
                    > 0x7fff_ffff_ffff_ffffu64 {
                    Err(MailboxError::InvalidQuery)
                } else {
                    Ok((cursor_field(body, 2), cursor_field(body, 3)))
                }
            },
        },
    }
}

/// The body of a decoded cursor: its first 32 bytes.
fn cursor_body_of(bytes: &[u8; 64]) -> (r: [u8; 32])
    ensures
        r@ == bytes@.subrange(0, 32),
{
    let mut body = [0u8; 32];
    let mut i: usize = 0;
    while i < 32
        invariant
            i <= 32,
            body@.len() == 32,
            bytes@.len() == 64,
            forall|j: int| 0 <= j < i ==> body@[j] == bytes@[j],
        decreases 32 - i,
    {
        body[i] = bytes[i];
        i += 1;
    }
    assert(body@ =~= bytes@.subrange(0, 32));
    body
}

/// `decode_cursor` once the HMAC of the cursor's body under the cursor key
/// came out as `tag`.
pub fn decode_cursor_given(
    value: &[u8],
    requester: u64,
    revision: u64,
    tag: Result<[u8; 32], Error>,
) -> (r: Result<(u64, i64), MailboxError>)
    ensures
        cursor_view(r) == cursor_decision(
            value@,
            requester,
            revision,
            match tag {
                Ok(t) => Ok(t@),
                Err(e) => Err(e),
            },
        ),
        r matches Ok((stage, after)) ==> after >= 0 && canonical_base64(value@, 64) is Some
            && canonical_base64(value@, 64)->0.subrange(0, 32) == cursor_body(
            [requester, revision, stage, after as u64],
        ),
{
    let bytes = match Binary::<64>::decode_text(value) {
        Ok(b) => b,
        Err(_) => return Err(MailboxError::InvalidQuery),
    };
    let tag = match tag {
        Ok(t) => t,
        Err(e) => return Err(MailboxError::Protocol(e)),
    };
    let mut given = [0u8; 32];
    let mut j: usize = 0;
    while j < 32
        invariant
            j <= 32,
            given@.len() == 32,
            bytes.0@.len() == 64,
            forall|k: int| 0 <= k < j ==> given@[k] == bytes.0@[32 + k],
        decreases 32 - j,
    {
        given[j] = bytes.0[32 + j];
        j += 1;
    }
    assert(given@ =~= bytes@.subrange(32, 64));
    if !Secret::from_bytes(tag).same(&Secret::from_bytes(given)) {
        return Err(MailboxError::InvalidQuery);
    }
    let fields = fields_of(&bytes.0);
    proof {
        let body = bytes@.subrange(0, 32);
        assert(cursor_body(fields) == body);
        assert forall|k: int| 0 <= k < 4 implies cursor_field(body, k) == #[trigger] fields[k] by {
            assert(body.subrange(8 * k, 8 * k + 8) =~= be_bytes(fields[k])) by {
                assert(cursor_body(fields).subrange(8 * k, 8 * k + 8) =~= be_bytes(fields[k]));
            }
            let v = cursor_field(body, k);
            assert(be_bytes(v) == body.subrange(8 * k, 8 * k + 8));
            lemma_be_bytes_injective(v, fields[k]);
        }
        assert(cursor_field(body, 0) == fields[0]);
        assert(cursor_field(body, 1) == fields[1]);
        assert(cursor_field(body, 2) == fields[2]);
        assert(cursor_field(body, 3) == fields[3]);
    }
    if fields[0] != requester || fields[1] != revision {
        return Err(MailboxError::Conflict);
    }
    if fields[2] > 2 || fields[3] > 0x7fff_ffff_ffff_ffffu64 {
        return Err(MailboxError::InvalidQuery);
    }
    proof {
        assert(fields@ =~= [requester, revision, fields[2], fields[3]]@);
        assert(canonical_base64(value@, 64) == Some(bytes@));
    }
    Ok((fields[2], fields[3] as i64))
}

/// The stage and last identifier of a valid cursor from `requester` at
/// `revision`: the cursor's body is authenticated with the bridge's HMAC
/// under the cursor key, and `decode_cursor_given` decides the rest. A
/// cursor that is not canonical base64 of 64 bytes, or whose HMAC does not
/// verify, is invalid; one for another requester or revision is a
/// conflict (the client restarts its walk); one with an unknown stage or
/// identifier is invalid.
pub fn decode_cursor<B: Bridge>(
    key: &Secret<32>,
    value: &[u8],
    requester: u64,
    revision: u64,
    bridge: &B,
) -> (r: Result<(u64, i64), MailboxError>)
    ensures
        exists|tag: Result<Seq<u8>, Error>|
            cursor_view(r) == cursor_decision(value@, requester, revision, tag),
        // The tag the cursor is checked against is the bridge's HMAC of
        // its body under the cursor key.
        canonical_base64(value@, 64) matches Some(bytes) ==> exists|tag: Result<[u8; 32], Error>|
            tags_to(bridge, key@, bytes.subrange(0, 32), tag) && cursor_view(r) == cursor_decision(
                value@,
                requester,
                revision,
                match tag {
                    Ok(t) => Ok(t@),
                    Err(e) => Err(e),
                },
            ),
        canonical_base64(value@, 64) is None ==> r == Err::<(u64, i64), MailboxError>(
            MailboxError::InvalidQuery,
        ),
        r matches Ok((stage, after)) ==> {
            &&& stage <= 2
            &&& after >= 0
            &&& canonical_base64(value@, 64) is Some
            &&& canonical_base64(value@, 64)->0.subrange(0, 32) == cursor_body(
                [requester, revision, stage, after as u64],
            )
        },
{
    let bytes = match Binary::<64>::decode_text(value) {
        Ok(b) => b,
        Err(_) => {
            assert(cursor_view(Err(MailboxError::InvalidQuery)) == cursor_decision(
                value@,
                requester,
                revision,
                Err(Error::Invalid),
            ));
            return Err(MailboxError::InvalidQuery);
        },
    };
    let body = cursor_body_of(&bytes.0);
    let tag = bridge.hmac(key, &body);
    assert(tags_to(bridge, key@, bytes@.subrange(0, 32), tag));
    let r = decode_cursor_given(value, requester, revision, tag);
    proof {
        let t = match tag {
            Ok(t) => Ok(t@),
            Err(e) => Err(e),
        };
        assert(cursor_view(r) == cursor_decision(value@, requester, revision, t));
    }
    r
}

/// Bytes a page spends on its envelope before any item.
pub const PAGE_ENVELOPE: usize = 512;
/// Most bytes of public PQ material on one page.
pub const PAGE_PQ_LIMIT: usize = 131072;
/// Most bytes of one page.
pub const PAGE_LIMIT: usize = 1048576;
/// Most items on one page.
pub const PAGE_ITEMS: usize = 32;

/// One walk over a caller's state: stage 0 lists peers, 1 CIDRs, 2
/// exchanges, 3 means done; `after` is the last identifier listed.
#[derive(Clone, Copy, Debug, PartialEq, Eq, Structural)]
pub struct PageWalk {
    pub stage: u64,
    pub after: i64,
    pub pq_bytes: usize,
    pub total_bytes: usize,
    pub count: usize,
}

/// What to do with the next item of a page.
#[derive(Clone, Copy, Debug, PartialEq, Eq, Structural)]
pub enum Fit {
    /// It fits: add it.
    Take,
    /// It does not fit: the page ends before it.
    Stop,
}

pub open spec fn walk_ok(w: PageWalk) -> bool {
    &&& w.pq_bytes <= PAGE_PQ_LIMIT
    &&& w.total_bytes <= PAGE_LIMIT
    &&& w.count <= PAGE_ITEMS
    &&& w.stage <= 3
}

impl PageWalk {
    /// A walk resumed at `stage` after identifier `after`.
    pub fn new(stage: u64, after: i64) -> (r: PageWalk)
        requires
            stage <= 3,
        ensures
            r == (PageWalk {
                stage: stage,
                after: after,
                pq_bytes: PAGE_ENVELOPE,
                total_bytes: PAGE_ENVELOPE,
                count: 0,
            }),
            walk_ok(r),
    {
        PageWalk {
            stage: stage,
            after: after,
            pq_bytes: PAGE_ENVELOPE,
            total_bytes: PAGE_ENVELOPE,
            count: 0,
        }
    }

    /// Whether the page may take another item: stages remain and fewer
    /// than `PAGE_ITEMS` items are on it.
    pub fn more(&self) -> (r: bool)
        ensures
            r == (self.stage < 3 && self.count < PAGE_ITEMS),
    {
        self.stage < 3 && self.count < PAGE_ITEMS
    }

    /// The current stage is exhausted: move to the next, restarting the
    /// identifiers except after the last stage.
    pub fn next_stage(&mut self)
        requires
            old(self).stage < 3,
        ensures
            final(self).stage == old(self).stage + 1,
            final(self).after == if old(self).stage < 2 {
                0
            } else {
                old(self).after
            },
            final(self).count == old(self).count,
            final(self).pq_bytes == old(self).pq_bytes,
            final(self).total_bytes == old(self).total_bytes,
    {
        if self.stage < 2 {
            self.after = 0;
        }
        self.stage = self.stage + 1;
    }

    /// Passes over item `id` without listing it.
    pub fn skip(&mut self, id: i64)
        ensures
            *final(self) == (PageWalk { after: id, ..*old(self) }),
    {
        self.after = id;
    }

    /// Offers item `id` of `size` bytes, `pq_size` of them public PQ
    /// material: it is taken when both budgets allow; otherwise the page
    /// ends, and a page that cannot take even its first item cannot be
    /// served at all.
    pub fn offer(&mut self, id: i64, pq_size: usize, size: usize) -> (r: Result<Fit, MailboxError>)
        requires
            walk_ok(*old(self)),
        ensures
            old(self).pq_bytes + pq_size > PAGE_PQ_LIMIT || old(self).total_bytes + size
                > PAGE_LIMIT ==> *final(self) == *old(self) && r == if old(self).count == 0 {
                Err::<Fit, MailboxError>(MailboxError::Unavailable)
            } else {
                Ok(Fit::Stop)
            },
            !(old(self).pq_bytes + pq_size > PAGE_PQ_LIMIT || old(self).total_bytes + size
                > PAGE_LIMIT) ==> r == Ok::<Fit, MailboxError>(Fit::Take) && *final(self) == (
            PageWalk {
                pq_bytes: (old(self).pq_bytes + pq_size) as usize,
                total_bytes: (old(self).total_bytes + size) as usize,
                count: (old(self).count + 1) as usize,
                after: id,
                ..*old(self)
            }),
            old(self).count < PAGE_ITEMS ==> walk_ok(*final(self)),
    {
        if pq_size > PAGE_PQ_LIMIT - self.pq_bytes || size > PAGE_LIMIT - self.total_bytes {
            if self.count == 0 {
                return Err(MailboxError::Unavailable);
            }
            return Ok(Fit::Stop);
        }
        self.pq_bytes = self.pq_bytes + pq_size;
        self.total_bytes = self.total_bytes + size;
        self.count = self.count + 1;
        self.after = id;
        Ok(Fit::Take)
    }

    /// The cursor fields of the next page, if the walk is not done.
    pub fn next_cursor(&self, requester: u64, revision: u64) -> (r: Option<[u64; 4]>)
        ensures
            match r {
                Some(f) => self.stage < 3 && f@ == seq![
                    requester,
                    revision,
                    self.stage,
                    self.after as u64,
                ],
                None => self.stage >= 3,
            },
    {
        if self.stage < 3 {
            let f = [requester, revision, self.stage, self.after as u64];
            proof {
                assert(f@ =~= seq![requester, revision, self.stage, self.after as u64]);
            }
            Some(f)
        } else {
            None
        }
    }
}

/// The phase a handshake request names: none means the proposal.
pub open spec fn phase_of(query: Option<Seq<char>>) -> Option<u8> {
    match query {
        None => Some(1),
        Some(q) => if q == "phase=1"@ {
            Some(1)
        } else if q == "phase=2"@ {
            Some(2)
        } else if q == "phase=3"@ {
            Some(3)
        } else if q == "phase=4"@ {
            Some(4)
        } else if q == "phase=5"@ {
            Some(5)
        } else if q == "phase=6"@ {
            Some(6)
        } else {
            None
        },
    }
}

pub(crate) fn text_is(s: &str, literal: &str) -> (r: bool)
    ensures
        r == (s@ == literal@),
{
    let a = s.as_bytes();
    let b = literal.as_bytes();
    let same = same_slice(a, b);
    proof {
        vstd::utf8::encode_utf8_decode_utf8(s@);
        vstd::utf8::encode_utf8_decode_utf8(literal@);
    }
    same
}

pub fn handshake_phase(query: Option<&str>) -> (r: Option<u8>)
    ensures
        r == phase_of(
            match query {
                Some(q) => Some(q@),
                None => None,
            },
        ),
{
    match query {
        None => Some(1),
        Some(q) => if text_is(q, "phase=1") {
            Some(1)
        } else if text_is(q, "phase=2") {
            Some(2)
        } else if text_is(q, "phase=3") {
            Some(3)
        } else if text_is(q, "phase=4") {
            Some(4)
        } else if text_is(q, "phase=5") {
            Some(5)
        } else if text_is(q, "phase=6") {
            Some(6)
        } else {
            None
        },
    }
}

/// Whether a registration request asks for a retirement: no query means
/// no, `retire=1` means yes, anything else is invalid (`None`).
pub fn registration_retirement(query: Option<&str>) -> (r: Option<bool>)
    ensures
        r == match query {
            None => Some(false),
            Some(q) => if q@ == "retire=1"@ {
                Some(true)
            } else {
                None
            },
        },
{
    match query {
        None => Some(false),
        Some(q) => if text_is(q, "retire=1") {
            Some(true)
        } else {
            None
        },
    }
}

} // verus!

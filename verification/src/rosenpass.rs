//! The decisions around the Rosenpass exchange daemon that innernet runs
//! alongside WireGuard: where its files live, which side dials, which
//! daemon versions are acceptable, how its key-output log lines read, and
//! the interim PSK used before the first exchange completes.
use vstd::prelude::*;
use vstd::string::StringSliceAdditionalSpecFns;

use crate::codec::{
    all_digits, base64_bytes, base64_decode, base64_encode, base64_text, decimal, decimal_chars,
    decimal_text, parse_digits, sha256, sha256_digest,
};

verus! {

/// Raw byte length of a Rosenpass static public key (Classic McEliece 460896).
pub const ROSENPASS_PUBLIC_KEY_LEN: usize = 524160;

/// `part` appended to directory `base` as one more path component.
pub open spec fn joined_path(base: Seq<char>, part: Seq<char>) -> Seq<char> {
    if base.len() == 0 || base.last() == '/' {
        base + part
    } else {
        base + "/"@ + part
    }
}

/// Appends relative component `part` to directory `base`.
pub fn join_path(base: &str, part: &str) -> (r: String)
    ensures
        r@ == joined_path(base@, part@),
{
    let mut out = String::from_str(base);
    let count = base.unicode_len();
    if count > 0 && base.get_char(count - 1) != '/' {
        out.append("/");
    }
    out.append(part);
    out
}

/// Where an interface's Rosenpass keypair and daemon state live:
/// `<data_dir>/rosenpass/<interface>/`.
pub fn interface_rosenpass_dir(data_dir: &str, interface: &str) -> (r: String)
    ensures
        r@ == joined_path(joined_path(data_dir@, "rosenpass"@), interface@),
{
    let base = join_path(data_dir, "rosenpass");
    join_path(base.as_str(), interface)
}

/// Paths to a Rosenpass keypair in a per-interface directory.
#[derive(Clone, Debug)]
pub struct RosenpassKeyPaths {
    pub public_key: String,
    pub secret_key: String,
}

impl RosenpassKeyPaths {
    pub fn new(rosenpass_dir: &str) -> (r: RosenpassKeyPaths)
        ensures
            r.public_key@ == joined_path(rosenpass_dir@, "public-key"@),
            r.secret_key@ == joined_path(rosenpass_dir@, "secret-key"@),
    {
        RosenpassKeyPaths {
            public_key: join_path(rosenpass_dir, "public-key"),
            secret_key: join_path(rosenpass_dir, "secret-key"),
        }
    }
}

/// The base64 text of a public key file's contents `raw`, or the wrong
/// length it has.
pub fn read_public_key_base64(raw: &[u8]) -> (r: Result<Vec<u8>, usize>)
    ensures
        match r {
            Ok(text) => raw@.len() == ROSENPASS_PUBLIC_KEY_LEN && text@ == base64_text(raw@),
            Err(length) => raw@.len() != ROSENPASS_PUBLIC_KEY_LEN && length == raw@.len(),
        },
{
    if raw.len() != ROSENPASS_PUBLIC_KEY_LEN {
        return Err(raw.len());
    }
    Ok(base64_encode(raw))
}

/// Whether `a` sorts no later than `b`, byte by byte (the order of `str`).
pub open spec fn bytes_le(a: Seq<u8>, b: Seq<u8>) -> bool
    decreases a.len(),
{
    if a.len() == 0 {
        true
    } else if b.len() == 0 {
        false
    } else if a[0] != b[0] {
        a[0] < b[0]
    } else {
        bytes_le(a.drop_first(), b.drop_first())
    }
}

/// Two byte strings that each sort no later than the other are equal.
pub proof fn lemma_bytes_le_antisymmetric(a: Seq<u8>, b: Seq<u8>)
    requires
        bytes_le(a, b),
        bytes_le(b, a),
    ensures
        a == b,
    decreases a.len(),
{
    if a.len() > 0 && b.len() > 0 {
        lemma_bytes_le_antisymmetric(a.drop_first(), b.drop_first());
        assert(a =~= seq![a[0]] + a.drop_first());
        assert(b =~= seq![b[0]] + b.drop_first());
    }
}

/// Any two byte strings are ordered one way or the other.
pub proof fn lemma_bytes_le_total(a: Seq<u8>, b: Seq<u8>)
    ensures
        bytes_le(a, b) || bytes_le(b, a),
    decreases a.len(),
{
    if a.len() > 0 && b.len() > 0 && a[0] == b[0] {
        lemma_bytes_le_total(a.drop_first(), b.drop_first());
    }
}

fn compare_bytes(a: &[u8], b: &[u8]) -> (r: bool)
    ensures
        r == bytes_le(a@, b@),
{
    let mut i: usize = 0;
    proof {
        assert(a@.subrange(0, a@.len() as int) =~= a@);
        assert(b@.subrange(0, b@.len() as int) =~= b@);
    }
    while i < a.len() && i < b.len()
        invariant
            i <= a@.len(),
            i <= b@.len(),
            bytes_le(a@, b@) == bytes_le(a@.subrange(i as int, a@.len() as int), b@.subrange(
                i as int,
                b@.len() as int,
            )),
        decreases a@.len() - i,
    {
        if a[i] != b[i] {
            proof {
                let x = a@.subrange(i as int, a@.len() as int);
                let y = b@.subrange(i as int, b@.len() as int);
                assert(x[0] == a@[i as int]);
                assert(y[0] == b@[i as int]);
            }
            return a[i] < b[i];
        }
        proof {
            let x = a@.subrange(i as int, a@.len() as int);
            let y = b@.subrange(i as int, b@.len() as int);
            assert(x.drop_first() =~= a@.subrange(i + 1, a@.len() as int));
            assert(y.drop_first() =~= b@.subrange(i + 1, b@.len() as int));
        }
        i += 1;
    }
    i == a.len()
}

/// The label that opens every interim PSK's hash input.
pub open spec fn interim_label() -> Seq<u8> {
    seq![105u8, 110, 110, 101, 114, 110, 101, 116, 45, 114, 111, 115, 101, 110, 112, 97, 115, 115, 45, 105, 110, 116, 101, 114, 105, 109, 45, 112, 115, 107, 45, 118, 49]
}

/// The interim PSK of two public keys: SHA-256 over the label and the two
/// keys' texts in byte order, so both sides derive it without agreeing on
/// an order.
pub open spec fn interim_key(a: Seq<u8>, b: Seq<u8>) -> Seq<u8> {
    if bytes_le(a, b) {
        sha256_digest(interim_label() + a + b)
    } else {
        sha256_digest(interim_label() + b + a)
    }
}

fn append_slice(out: &mut Vec<u8>, bytes: &[u8])
    ensures
        final(out)@ == old(out)@ + bytes@,
{
    let mut i: usize = 0;
    while i < bytes.len()
        invariant
            i <= bytes@.len(),
            out@ == old(out)@ + bytes@.subrange(0, i as int),
        decreases bytes@.len() - i,
    {
        out.push(bytes[i]);
        i += 1;
    }
    proof {
        assert(bytes@.subrange(0, bytes@.len() as int) =~= bytes@);
    }
}

/// A deterministic placeholder WireGuard PSK derived from two peers'
/// Rosenpass public keys (as base64 text), for the window before their
/// first real exchange completes. It gives no post-quantum protection; it
/// only keeps the tunnel from running without a PSK meanwhile.
pub fn interim_preshared_key(a_public_key_base64: &str, b_public_key_base64: &str) -> (r: [u8; 32])
    ensures
        r@ == interim_key(a_public_key_base64.spec_bytes(), b_public_key_base64.spec_bytes()),
{
    let a = a_public_key_base64.as_bytes();
    let b = b_public_key_base64.as_bytes();
    let (first, second) = if compare_bytes(a, b) {
        (a, b)
    } else {
        (b, a)
    };
    let label: [u8; 33] = [
        105u8, 110, 110, 101, 114, 110, 101, 116, 45, 114, 111, 115, 101, 110, 112, 97, 115, 115,
        45, 105, 110, 116, 101, 114, 105, 109, 45, 112, 115, 107, 45, 118, 49,
    ];
    let mut data: Vec<u8> = Vec::new();
    append_slice(&mut data, &label);
    append_slice(&mut data, first);
    append_slice(&mut data, second);
    proof {
        assert(label@ =~= interim_label());
    }
    sha256(data.as_slice())
}

/// The interim PSK is the same whichever side computes it.
pub proof fn lemma_interim_key_symmetric(a: Seq<u8>, b: Seq<u8>)
    ensures
        interim_key(a, b) == interim_key(b, a),
{
    lemma_bytes_le_total(a, b);
    if bytes_le(a, b) && bytes_le(b, a) {
        lemma_bytes_le_antisymmetric(a, b);
    }
}

/// The decimal text of a signed identifier.
pub open spec fn signed_chars(v: int) -> Seq<char> {
    if v < 0 {
        "-"@ + decimal_chars((-v) as nat)
    } else {
        decimal_chars(v as nat)
    }
}

fn signed_text(v: i64) -> (r: String)
    ensures
        r@ == signed_chars(v as int),
{
    if v < 0 {
        let magnitude: u64 = if v == i64::MIN {
            0x8000_0000_0000_0000u64
        } else {
            (-v) as u64
        };
        let digits = decimal_text(magnitude);
        let mut out = String::from_str("-");
        out.append(digits.as_str());
        out
    } else {
        decimal_text(v as u64)
    }
}

/// Paths of one interface's Rosenpass exchange daemon.
#[derive(Clone, Debug)]
pub struct DaemonPaths {
    /// The TOML config passed to `rosenpass exchange-config`.
    pub config: String,
    /// The daemon's output, scanned for key-output events.
    pub log: String,
    /// How much of the log was already scanned.
    pub log_offset: String,
    /// The daemon's PID.
    pub pid: String,
}

/// A peer's file `<peer_id><suffix>` in the daemon's `peers` directory.
pub open spec fn peer_file(dir: Seq<char>, peer_id: int, suffix: Seq<char>) -> Seq<char> {
    joined_path(joined_path(dir, "peers"@), signed_chars(peer_id) + suffix)
}

impl DaemonPaths {
    pub fn new(rosenpass_dir: &str) -> (r: DaemonPaths)
        ensures
            r.config@ == joined_path(rosenpass_dir@, "rosenpass.toml"@),
            r.log@ == joined_path(rosenpass_dir@, "rosenpass.log"@),
            r.log_offset@ == joined_path(rosenpass_dir@, "rosenpass.log.offset"@),
            r.pid@ == joined_path(rosenpass_dir@, "rosenpass.pid"@),
    {
        DaemonPaths {
            config: join_path(rosenpass_dir, "rosenpass.toml"),
            log: join_path(rosenpass_dir, "rosenpass.log"),
            log_offset: join_path(rosenpass_dir, "rosenpass.log.offset"),
            pid: join_path(rosenpass_dir, "rosenpass.pid"),
        }
    }

    fn peer_path(rosenpass_dir: &str, peer_id: i64, suffix: &str) -> (r: String)
        ensures
            r@ == peer_file(rosenpass_dir@, peer_id as int, suffix@),
    {
        let peers = join_path(rosenpass_dir, "peers");
        let mut name = signed_text(peer_id);
        name.append(suffix);
        join_path(peers.as_str(), name.as_str())
    }

    /// Where a peer's raw public key is cached.
    pub fn peer_public_key_path(rosenpass_dir: &str, peer_id: i64) -> (r: String)
        ensures
            r@ == peer_file(rosenpass_dir@, peer_id as int, ".pub"@),
    {
        DaemonPaths::peer_path(rosenpass_dir, peer_id, ".pub")
    }

    /// Where Rosenpass writes the PSK derived with a peer.
    pub fn peer_key_out_path(rosenpass_dir: &str, peer_id: i64) -> (r: String)
        ensures
            r@ == peer_file(rosenpass_dir@, peer_id as int, ".psk"@),
    {
        DaemonPaths::peer_path(rosenpass_dir, peer_id, ".psk")
    }
}

/// Whether our side dials the other in the Rosenpass exchange. The server
/// (peer 1) only ever listens; every client dials the server; between two
/// clients the lower identifier dials. Both sides reach the same
/// assignment without coordinating.
pub open spec fn dials(ours: i64, theirs: i64) -> bool {
    if ours == 1 {
        false
    } else if theirs == 1 {
        true
    } else {
        ours < theirs
    }
}

pub fn we_dial(our_peer_id: i64, peer_id: i64) -> (r: bool)
    ensures
        r == dials(our_peer_id, peer_id),
{
    if our_peer_id == 1 {
        false
    } else if peer_id == 1 {
        true
    } else {
        our_peer_id < peer_id
    }
}

/// The Rosenpass daemon's peers, in directory order: every enabled entry
/// other than ourselves that has a Rosenpass key, each with whether our
/// side dials it (never when our own identifier is unknown). Each entry is
/// (identifier, disabled, ourselves, has a Rosenpass key).
pub open spec fn daemon_selection(entries: Seq<(i64, bool, bool, bool)>, our_id: Option<i64>) -> Seq<(i64, bool)>
    decreases entries.len(),
{
    if entries.len() == 0 {
        Seq::empty()
    } else {
        let prior = daemon_selection(entries.drop_last(), our_id);
        let (id, disabled, ourselves, has_key) = entries.last();
        if disabled || ourselves || !has_key {
            prior
        } else {
            prior.push((id, our_id is Some && dials(our_id->0, id)))
        }
    }
}

/// Chooses the Rosenpass daemon's peers from the directory; see
/// `daemon_selection`.
pub fn daemon_peers(entries: &[(i64, bool, bool, bool)], our_id: Option<i64>) -> (r: Vec<(i64, bool)>)
    ensures
        r@ == daemon_selection(entries@, our_id),
{
    let mut out: Vec<(i64, bool)> = Vec::new();
    let mut i: usize = 0;
    while i < entries.len()
        invariant
            i <= entries@.len(),
            out@ == daemon_selection(entries@.subrange(0, i as int), our_id),
        decreases entries@.len() - i,
    {
        let (id, disabled, ourselves, has_key) = entries[i];
        proof {
            assert(entries@.subrange(0, i + 1).drop_last() =~= entries@.subrange(0, i as int));
        }
        if !disabled && !ourselves && has_key {
            let dial = match our_id {
                Some(ours) => we_dial(ours, id),
                None => false,
            };
            out.push((id, dial));
        }
        i += 1;
    }
    proof {
        assert(entries@.subrange(0, entries@.len() as int) =~= entries@);
    }
    out
}

/// Decodes a peer's Rosenpass public key from the standard base64 text
/// the directory stores for it.
pub fn decode_peer_key(text: &[u8]) -> (r: Option<Vec<u8>>)
    ensures
        match r {
            Some(v) => base64_bytes(text@) == Some(v@),
            None => base64_bytes(text@) is None,
        },
{
    base64_decode(text)
}

/// What caching a peer's Rosenpass key needs, given the base64 text of the
/// key cached now (`None` when there is none or it cannot be read) and the
/// text the directory stores: nothing when the cached key already is the
/// stored one; otherwise the raw key to write, or a refusal when the
/// stored text is not valid base64.
pub fn peer_key_update(cached: Option<&[u8]>, stored: &[u8]) -> (r: Result<Option<Vec<u8>>, &'static str>)
    ensures
        cached matches Some(c) && c@ == stored@ ==> r == Ok::<Option<Vec<u8>>, &'static str>(None),
        !(cached matches Some(c) && c@ == stored@) ==> match r {
            Ok(Some(raw)) => base64_bytes(stored@) == Some(raw@),
            Ok(None) => false,
            Err(_) => base64_bytes(stored@) is None,
        },
{
    if let Some(c) = cached {
        if crate::codec::same_slice(c, stored) {
            return Ok(None);
        }
    }
    match decode_peer_key(stored) {
        Some(raw) => Ok(Some(raw)),
        None => Err("the stored rosenpass key is not valid base64"),
    }
}

/// The UDP port of the Rosenpass exchange: the one after WireGuard's
/// listen port, or 51821 when there is none after it.
pub fn rosenpass_port(wg_listen_port: u16) -> (r: u16)
    ensures
        r == if wg_listen_port < 65535 {
            (wg_listen_port + 1) as u16
        } else {
            51821u16
        },
{
    match wg_listen_port.checked_add(1) {
        Some(p) => p,
        None => 51821,
    }
}

/// Of two distinct peers, exactly one dials the other.
pub proof fn lemma_exactly_one_side_dials(a: i64, b: i64)
    requires
        a != b,
    ensures
        dials(a, b) != dials(b, a),
{
}

/// The oldest acceptable `rosenpass` version: earlier ones crash on a
/// malformed packet (CVE-2023-53157).
pub const MIN_ROSENPASS_VERSION: (u32, u32, u32) = (0, 2, 1);

/// Lexicographic order of versions.
pub open spec fn version_le(a: (u32, u32, u32), b: (u32, u32, u32)) -> bool {
    a.0 < b.0 || (a.0 == b.0 && (a.1 < b.1 || (a.1 == b.1 && a.2 <= b.2)))
}

/// Whether `version` is at least `MIN_ROSENPASS_VERSION`.
pub fn version_supported(version: (u32, u32, u32)) -> (r: bool)
    ensures
        r == version_le(MIN_ROSENPASS_VERSION, version),
{
    let (major, minor, patch) = version;
    major > 0 || (major == 0 && (minor > 2 || (minor == 2 && patch >= 1)))
}

/// The first index at or after `from` where `s` holds `c`, or `s.len()`.
pub open spec fn find_byte(s: Seq<u8>, c: u8, from: int) -> int
    decreases s.len() - from,
{
    if from >= s.len() {
        s.len() as int
    } else if s[from] == c {
        from
    } else {
        find_byte(s, c, from + 1)
    }
}

fn find_byte_exec(s: &[u8], c: u8, from: usize) -> (r: usize)
    requires
        from <= s@.len(),
    ensures
        r == find_byte(s@, c, from as int),
        from <= r <= s@.len(),
{
    let mut i = from;
    while i < s.len()
        invariant
            from <= i <= s@.len(),
            find_byte(s@, c, from as int) == find_byte(s@, c, i as int),
        decreases s@.len() - i,
    {
        if s[i] == c {
            return i;
        }
        i += 1;
    }
    i
}

/// What Rust's `u32::from_str` accepts: an optional `+`, then decimal
/// digits worth at most `u32::MAX`.
pub open spec fn u32_text(s: Seq<u8>) -> Option<u32> {
    let digits = if s.len() > 0 && s[0] == 43 {
        s.drop_first()
    } else {
        s
    };
    if all_digits(digits) && decimal(digits) <= u32::MAX {
        Some(decimal(digits) as u32)
    } else {
        None
    }
}

fn copy_range(s: &[u8], start: usize, end: usize) -> (r: Vec<u8>)
    requires
        start <= end <= s@.len(),
    ensures
        r@ == s@.subrange(start as int, end as int),
{
    let mut out: Vec<u8> = Vec::new();
    let mut i = start;
    while i < end
        invariant
            start <= i <= end,
            end <= s@.len(),
            out@ == s@.subrange(start as int, i as int),
        decreases end - i,
    {
        out.push(s[i]);
        i += 1;
        proof {
            assert(out@ =~= s@.subrange(start as int, i as int));
        }
    }
    out
}

fn parse_u32(s: &[u8]) -> (r: Option<u32>)
    ensures
        r == u32_text(s@),
{
    let digits = if s.len() > 0 && s[0] == 43u8 {
        copy_range(s, 1, s.len())
    } else {
        copy_range(s, 0, s.len())
    };
    proof {
        assert(s@.subrange(0, s@.len() as int) =~= s@);
        assert(s@.subrange(1, s@.len() as int) =~= s@.drop_first());
    }
    match parse_digits(digits.as_slice(), 0xffff_ffffu64) {
        Some(v) => Some(v as u32),
        None => None,
    }
}

/// The version in the first three dot-separated fields of `s`, each an
/// unsigned integer as `u32::from_str` reads it; further fields are
/// ignored.
pub open spec fn semver_of(s: Seq<u8>) -> Option<(u32, u32, u32)> {
    let d0 = find_byte(s, 46, 0);
    let d1 = find_byte(s, 46, d0 + 1);
    let d2 = find_byte(s, 46, d1 + 1);
    if d0 >= s.len() || d1 >= s.len() {
        None
    } else {
        match (
            u32_text(s.subrange(0, d0)),
            u32_text(s.subrange(d0 + 1, d1)),
            u32_text(s.subrange(d1 + 1, d2)),
        ) {
            (Some(a), Some(b), Some(c)) => Some((a, b, c)),
            _ => None,
        }
    }
}

pub fn parse_semver(s: &str) -> (r: Option<(u32, u32, u32)>)
    ensures
        r == semver_of(s.spec_bytes()),
{
    let b = s.as_bytes();
    let d0 = find_byte_exec(b, 46u8, 0);
    if d0 >= b.len() {
        return None;
    }
    let d1 = find_byte_exec(b, 46u8, d0 + 1);
    if d1 >= b.len() {
        return None;
    }
    let d2 = find_byte_exec(b, 46u8, d1 + 1);
    let major = parse_u32(copy_range(b, 0, d0).as_slice());
    let minor = parse_u32(copy_range(b, d0 + 1, d1).as_slice());
    let patch = parse_u32(copy_range(b, d1 + 1, d2).as_slice());
    match (major, minor, patch) {
        (Some(a), Some(b), Some(c)) => Some((a, b, c)),
        _ => None,
    }
}

/// One key-output event from the daemon's log: the PSK file it wrote, and
/// whether it holds a freshly exchanged key (`exchanged`) or was
/// overwritten with random bytes to invalidate it (`stale`).
#[derive(Clone, Debug, PartialEq, Eq)]
pub struct ExchangeEvent {
    pub key_out_path: Vec<u8>,
    pub fresh: bool,
}

pub open spec fn key_event_prefix() -> Seq<u8> {
    seq![111u8, 117, 116, 112, 117, 116, 45, 107, 101, 121, 32, 112, 101, 101, 114, 32]
}

pub open spec fn key_file_marker() -> Seq<u8> {
    seq![32u8, 107, 101, 121, 45, 102, 105, 108, 101, 32]
}

pub open spec fn exchanged_word() -> Seq<u8> {
    seq![101u8, 120, 99, 104, 97, 110, 103, 101, 100]
}

pub open spec fn stale_word() -> Seq<u8> {
    seq![115u8, 116, 97, 108, 101]
}

/// The first index at or after `from` where `p` occurs in `s`.
pub open spec fn find_pattern(s: Seq<u8>, p: Seq<u8>, from: int) -> Option<int>
    decreases s.len() + 1 - from,
{
    if from < 0 || from + p.len() > s.len() {
        None
    } else if s.subrange(from, from + p.len()) == p {
        Some(from)
    } else {
        find_pattern(s, p, from + 1)
    }
}

/// The last index in `lo..hi` where `s` holds `c`.
pub open spec fn rfind_byte(s: Seq<u8>, c: u8, lo: int, hi: int) -> Option<int>
    decreases hi - lo,
{
    if hi <= lo {
        None
    } else if s[hi - 1] == c {
        Some(hi - 1)
    } else {
        rfind_byte(s, c, lo, hi - 1)
    }
}

/// The first index in `lo..hi` where `s` does not hold `c`, or `hi`.
pub open spec fn skip_byte(s: Seq<u8>, c: u8, lo: int, hi: int) -> int
    decreases hi - lo,
{
    if hi <= lo {
        hi
    } else if s[lo] != c {
        lo
    } else {
        skip_byte(s, c, lo + 1, hi)
    }
}

/// One past the last index in `lo..hi` where `s` does not hold `c`, or
/// `lo`.
pub open spec fn skip_byte_back(s: Seq<u8>, c: u8, lo: int, hi: int) -> int
    decreases hi - lo,
{
    if hi <= lo {
        lo
    } else if s[hi - 1] != c {
        hi
    } else {
        skip_byte_back(s, c, lo, hi - 1)
    }
}

/// The event a log line reports: `output-key peer <id> key-file <path>
/// exchanged|stale`, split at the first ` key-file ` and the last space,
/// with the quotes around the path trimmed.
pub open spec fn key_event(b: Seq<u8>) -> Option<(Seq<u8>, bool)> {
    if b.len() < 16 || b.subrange(0, 16) != key_event_prefix() {
        None
    } else {
        match find_pattern(b, key_file_marker(), 16) {
            None => None,
            Some(k) => match rfind_byte(b, 32, k + 10, b.len() as int) {
                None => None,
                Some(j) => {
                    let why = b.subrange(j + 1, b.len() as int);
                    if why != exchanged_word() && why != stale_word() {
                        None
                    } else {
                        let start = skip_byte(b, 34, k + 10, j);
                        let end = skip_byte_back(b, 34, start, j);
                        Some((b.subrange(start, end), why == exchanged_word()))
                    }
                },
            },
        }
    }
}

fn matches_at(s: &[u8], p: &[u8], at: usize) -> (r: bool)
    requires
        at + p@.len() <= s@.len(),
    ensures
        r == (s@.subrange(at as int, at + p@.len()) == p@),
{
    let n = s.len();
    let mut i: usize = 0;
    while i < p.len()
        invariant
            i <= p@.len(),
            n == s@.len(),
            at + p@.len() <= s@.len(),
            forall|j: int| 0 <= j < i ==> s@[at + j] == p@[j],
        decreases p@.len() - i,
    {
        if s[at + i] != p[i] {
            proof {
                assert(s@.subrange(at as int, at + p@.len())[i as int] != p@[i as int]);
            }
            return false;
        }
        i += 1;
    }
    proof {
        assert(s@.subrange(at as int, at + p@.len()) =~= p@);
    }
    true
}

fn find_pattern_exec(s: &[u8], p: &[u8], from: usize) -> (r: Option<usize>)
    requires
        from <= s@.len(),
    ensures
        match r {
            Some(i) => find_pattern(s@, p@, from as int) == Some(i as int),
            None => find_pattern(s@, p@, from as int) is None,
        },
{
    let n = s.len();
    let m = p.len();
    if m > n || from > n - m {
        return None;
    }
    if m == 0 {
        proof {
            assert(s@.subrange(from as int, from as int) =~= p@);
        }
        return Some(from);
    }
    let mut i = from;
    while i <= n - m
        invariant
            from <= i <= n - m + 1,
            n == s@.len(),
            m == p@.len(),
            1 <= m <= n,
            find_pattern(s@, p@, from as int) == find_pattern(s@, p@, i as int),
        decreases n - m + 1 - i,
    {
        if matches_at(s, p, i) {
            return Some(i);
        }
        i += 1;
    }
    None
}

fn rfind_byte_exec(s: &[u8], c: u8, lo: usize, hi: usize) -> (r: Option<usize>)
    requires
        lo <= hi <= s@.len(),
    ensures
        match r {
            Some(i) => rfind_byte(s@, c, lo as int, hi as int) == Some(i as int),
            None => rfind_byte(s@, c, lo as int, hi as int) is None,
        },
{
    let mut i = hi;
    while i > lo
        invariant
            lo <= i <= hi,
            hi <= s@.len(),
            rfind_byte(s@, c, lo as int, hi as int) == rfind_byte(s@, c, lo as int, i as int),
        decreases i - lo,
    {
        if s[i - 1] == c {
            return Some(i - 1);
        }
        i -= 1;
    }
    None
}

fn skip_exec(s: &[u8], c: u8, lo: usize, hi: usize) -> (r: usize)
    requires
        lo <= hi <= s@.len(),
    ensures
        r == skip_byte(s@, c, lo as int, hi as int),
        lo <= r <= hi,
{
    let mut i = lo;
    while i < hi
        invariant
            lo <= i <= hi,
            hi <= s@.len(),
            skip_byte(s@, c, lo as int, hi as int) == skip_byte(s@, c, i as int, hi as int),
        decreases hi - i,
    {
        if s[i] != c {
            return i;
        }
        i += 1;
    }
    i
}

fn skip_back_exec(s: &[u8], c: u8, lo: usize, hi: usize) -> (r: usize)
    requires
        lo <= hi <= s@.len(),
    ensures
        r == skip_byte_back(s@, c, lo as int, hi as int),
        lo <= r <= hi,
{
    let mut i = hi;
    while i > lo
        invariant
            lo <= i <= hi,
            hi <= s@.len(),
            skip_byte_back(s@, c, lo as int, hi as int) == skip_byte_back(
                s@,
                c,
                lo as int,
                i as int,
            ),
        decreases i - lo,
    {
        if s[i - 1] != c {
            return i;
        }
        i -= 1;
    }
    i
}

/// Parses one line of the daemon's log; lines of any other shape, however
/// malformed, give `None`.
pub fn parse_output_key_line(line: &str) -> (r: Option<ExchangeEvent>)
    ensures
        match r {
            Some(e) => key_event(line.spec_bytes()) == Some((e.key_out_path@, e.fresh)),
            None => key_event(line.spec_bytes()) is None,
        },
{
    key_line(line.as_bytes())
}

fn key_line(b: &[u8]) -> (r: Option<ExchangeEvent>)
    ensures
        match r {
            Some(e) => key_event(b@) == Some((e.key_out_path@, e.fresh)),
            None => key_event(b@) is None,
        },
{
    let prefix: [u8; 16] = [111u8, 117, 116, 112, 117, 116, 45, 107, 101, 121, 32, 112, 101, 101, 114, 32];
    let marker: [u8; 10] = [32u8, 107, 101, 121, 45, 102, 105, 108, 101, 32];
    let exchanged: [u8; 9] = [101u8, 120, 99, 104, 97, 110, 103, 101, 100];
    let stale: [u8; 5] = [115u8, 116, 97, 108, 101];
    proof {
        assert(prefix@ =~= key_event_prefix());
        assert(marker@ =~= key_file_marker());
        assert(exchanged@ =~= exchanged_word());
        assert(stale@ =~= stale_word());
    }
    if b.len() < 16 || !matches_at(b, &prefix, 0) {
        return None;
    }
    let k = match find_pattern_exec(b, &marker, 16) {
        Some(k) => k,
        None => return None,
    };
    proof {
        lemma_find_pattern_bound(b@, marker@, 16, k as int);
    }
    let j = match rfind_byte_exec(b, 32u8, k + 10, b.len()) {
        Some(j) => j,
        None => return None,
    };
    proof {
        lemma_rfind_bound(b@, 32u8, k + 10, b@.len() as int, j as int);
    }
    let fresh = if b.len() - (j + 1) == 9 && matches_at(b, &exchanged, j + 1) {
        true
    } else if b.len() - (j + 1) == 5 && matches_at(b, &stale, j + 1) {
        false
    } else {
        return None;
    };
    let start = skip_exec(b, 34u8, k + 10, j);
    let end = skip_back_exec(b, 34u8, start, j);
    Some(ExchangeEvent { key_out_path: copy_range(b, start, end), fresh: fresh })
}

/// A found pattern lies within the sequence, at or after where the search began.
pub proof fn lemma_find_pattern_bound(s: Seq<u8>, p: Seq<u8>, from: int, k: int)
    requires
        find_pattern(s, p, from) == Some(k),
    ensures
        from <= k,
        k + p.len() <= s.len(),
    decreases s.len() + 1 - from,
{
    if from >= 0 && from + p.len() <= s.len() && s.subrange(from, from + p.len()) != p {
        lemma_find_pattern_bound(s, p, from + 1, k);
    }
}

proof fn lemma_rfind_bound(s: Seq<u8>, c: u8, lo: int, hi: int, j: int)
    requires
        rfind_byte(s, c, lo, hi) == Some(j),
    ensures
        lo <= j < hi,
    decreases hi - lo,
{
    if hi > lo && s[hi - 1] != c {
        lemma_rfind_bound(s, c, lo, hi - 1, j);
    }
}

/// A log line without the carriage return of a CRLF line ending.
pub open spec fn without_cr(t: Seq<u8>) -> Seq<u8> {
    if t.len() > 0 && t.last() == 13 {
        t.drop_last()
    } else {
        t
    }
}

/// The lines of `s` from index `pos` on, as a line reader yields them:
/// split at each newline, which is dropped together with a carriage
/// return before it; a final line needs no newline.
pub open spec fn log_lines(s: Seq<u8>, pos: int) -> Seq<Seq<u8>>
    decreases s.len() - pos,
{
    if pos < 0 || pos >= s.len() {
        Seq::empty()
    } else {
        match find_pattern(s, seq![10u8], pos) {
            Some(k) => {
                proof {
                    lemma_find_pattern_bound(s, seq![10u8], pos, k);
                }
                seq![without_cr(s.subrange(pos, k))] + log_lines(s, k + 1)
            },
            None => seq![s.subrange(pos, s.len() as int)],
        }
    }
}

/// Bytes the lines account for: each line and its newline.
pub open spec fn line_total(lines: Seq<Seq<u8>>) -> nat
    decreases lines.len(),
{
    if lines.len() == 0 {
        0
    } else {
        line_total(lines.drop_last()) + lines.last().len() + 1
    }
}

/// The events the lines report, in order.
pub open spec fn key_events(lines: Seq<Seq<u8>>) -> Seq<(Seq<u8>, bool)>
    decreases lines.len(),
{
    if lines.len() == 0 {
        Seq::empty()
    } else {
        let rest = key_events(lines.drop_last());
        match key_event(lines.last()) {
            Some(e) => rest.push(e),
            None => rest,
        }
    }
}

pub open spec fn event_views(events: Seq<ExchangeEvent>) -> Seq<(Seq<u8>, bool)> {
    events.map_values(|e: ExchangeEvent| (e.key_out_path@, e.fresh))
}

/// Where reading the daemon's log resumes: at the scanned `offset`, or
/// from the start when the log is now shorter (it was recreated).
pub fn log_start(offset: u64, len: u64) -> (r: u64)
    ensures
        r == if len < offset {
            0
        } else {
            offset
        },
{
    if len < offset {
        0
    } else {
        offset
    }
}

/// Scans the log text read from `log_start(offset, len)` on: every
/// key-output event its lines report, and the new scanned offset, which
/// counts on from the smaller of `offset` and `len` by each line and its
/// newline.
pub fn scan_log(content: &str, offset: u64, len: u64) -> (r: (Vec<ExchangeEvent>, u64))
    requires
        (if offset < len {
            offset
        } else {
            len
        }) + content.spec_bytes().len() + 1 <= u64::MAX,
    ensures
        event_views(r.0@) == key_events(log_lines(content.spec_bytes(), 0)),
        r.1 == (if offset < len {
            offset
        } else {
            len
        }) + line_total(log_lines(content.spec_bytes(), 0)),
{
    let b = content.as_bytes();
    let n = b.len();
    let base: u64 = if offset < len {
        offset
    } else {
        len
    };
    let newline: [u8; 1] = [10u8];
    proof {
        assert(newline@ =~= seq![10u8]);
    }
    let mut acc = base;
    let mut events: Vec<ExchangeEvent> = Vec::new();
    let mut pos: usize = 0;
    let ghost mut done: Seq<Seq<u8>> = Seq::empty();
    let ghost mut tail = false;
    while pos < n
        invariant
            pos <= n,
            n == b@.len(),
            b@ == content.spec_bytes(),
            newline@ == seq![10u8],
            base + n + 1 <= u64::MAX,
            log_lines(b@, 0) == done + log_lines(b@, pos as int),
            acc == base + line_total(done),
            line_total(done) <= pos + (if tail {
                1int
            } else {
                0int
            }),
            tail ==> pos == n,
            event_views(events@) == key_events(done),
        decreases n - pos,
    {
        let ghost before_events = events@;
        let (line, next) = match find_pattern_exec(b, &newline, pos) {
            Some(k) => {
                proof {
                    lemma_find_pattern_bound(b@, newline@, pos as int, k as int);
                }
                let end = if k > pos && b[k - 1] == 13u8 {
                    k - 1
                } else {
                    k
                };
                proof {
                    assert(b@.subrange(pos as int, end as int) =~= without_cr(
                        b@.subrange(pos as int, k as int),
                    ));
                }
                (copy_range(b, pos, end), k + 1)
            },
            None => {
                proof {
                    tail = true;
                }
                (copy_range(b, pos, n), n)
            },
        };
        proof {
            assert(log_lines(b@, pos as int) == seq![line@] + log_lines(b@, next as int));
            assert(done + log_lines(b@, pos as int) =~= done.push(line@) + log_lines(
                b@,
                next as int,
            ));
            assert(done.push(line@).drop_last() =~= done);
        }
        acc = acc + (line.len() as u64) + 1;
        match key_line(line.as_slice()) {
            Some(event) => {
                events.push(event);
                proof {
                    assert(event_views(events@) =~= event_views(before_events).push(
                        (event.key_out_path@, event.fresh),
                    ));
                }
            },
            None => {},
        }
        proof {
            done = done.push(line@);
        }
        pos = next;
    }
    proof {
        assert(done + Seq::<Seq<u8>>::empty() =~= done);
    }
    (events, acc)
}

/// Whether `events` holds an event for `path` with the given freshness.
pub fn event_seen(events: &[ExchangeEvent], path: &[u8], fresh: bool) -> (r: bool)
    ensures
        r == exists|i: int|
            0 <= i < events@.len() && (#[trigger] events@[i]).key_out_path@ == path@
                && events@[i].fresh == fresh,
{
    let mut i: usize = 0;
    while i < events.len()
        invariant
            i <= events@.len(),
            forall|j: int|
                0 <= j < i ==> !((#[trigger] events@[j]).key_out_path@ == path@ && events@[j].fresh
                    == fresh),
        decreases events@.len() - i,
    {
        let e = &events[i];
        if e.fresh == fresh && crate::codec::same_slice(e.key_out_path.as_slice(), path) {
            return true;
        }
        i += 1;
    }
    false
}

} // verus!

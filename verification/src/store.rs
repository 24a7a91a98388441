//! The rules of the owner-only, locked, atomic private store: which files
//! and directories may be trusted, which snapshot versions load, when a
//! save would overwrite a change it has not seen, and which export names
//! are acceptable. No secret enters an error.
use vstd::prelude::*;
use vstd::string::StringSliceAdditionalSpecFns;

verus! {

/// Why the store refuses an operation.
#[derive(Clone, Copy, Debug, PartialEq, Eq, Structural)]
pub enum StoreError {
    /// Private storage has unsafe ownership, permissions, links, or type.
    Unsafe,
    /// Another process owns this interface.
    Busy,
    /// Private state is missing or corrupt; explicit recovery is required.
    Corrupt,
    /// Private state has a newer unsupported format.
    Newer,
    /// Private state changed unexpectedly; reopen and reconcile before retrying.
    Conflict,
}

/// The largest snapshot, in bytes.
pub const MAX_BYTES: u64 = 16777216;

/// Whether an opened private file may be trusted: a regular file with one
/// link, owned by this user, readable and writable by its owner alone.
pub fn owned_file(is_file: bool, owner: u32, user: u32, mode: u32, links: u64) -> (r: Result<
    (),
    StoreError,
>)
    ensures
        r is Ok <==> is_file && owner == user && mode & 0o7777 == 0o600 && links == 1,
        r is Err ==> r == Err::<(), StoreError>(StoreError::Unsafe),
{
    if !is_file || owner != user || mode & 0o7777 != 0o600 || links != 1 {
        return Err(StoreError::Unsafe);
    }
    Ok(())
}

/// Whether a directory on the way to the store may be trusted. The store's
/// own directory must be this user's and 0700; a parent must be owned by
/// root or this user, and writable by others only when it is root's and
/// sticky (as `/tmp` is).
pub fn directory_ok(last: bool, owner: u32, user: u32, mode: u32) -> (r: Result<(), StoreError>)
    ensures
        r is Ok <==> if last {
            owner == user && mode & 0o7777 == 0o700
        } else {
            (owner == 0 || owner == user) && (mode & 0o022 == 0 || (owner == 0 && mode & 0o1000
                != 0))
        },
        r is Err ==> r == Err::<(), StoreError>(StoreError::Unsafe),
{
    if last {
        if owner != user || mode & 0o7777 != 0o700 {
            return Err(StoreError::Unsafe);
        }
    } else if (owner != 0 && owner != user) || (mode & 0o022 != 0 && !(owner == 0 && mode
        & 0o1000 != 0)) {
        return Err(StoreError::Unsafe);
    }
    Ok(())
}

/// Whether a snapshot's length is acceptable.
pub fn snapshot_length(length: u64) -> (r: Result<(), StoreError>)
    ensures
        r is Ok <==> 0 < length <= MAX_BYTES,
        r is Err ==> r == Err::<(), StoreError>(StoreError::Corrupt),
{
    if length == 0 || length > MAX_BYTES {
        return Err(StoreError::Corrupt);
    }
    Ok(())
}

/// The envelope version rule: 1 loads, a later one is newer than this
/// code, anything else is corrupt.
pub open spec fn version_check(version: u8) -> Result<(), StoreError> {
    if version > 1 {
        Err(StoreError::Newer)
    } else if version != 1 {
        Err(StoreError::Corrupt)
    } else {
        Ok(())
    }
}

pub fn check_version(version: u8) -> (r: Result<(), StoreError>)
    ensures
        r == version_check(version),
{
    if version > 1 {
        return Err(StoreError::Newer);
    }
    if version != 1 {
        return Err(StoreError::Corrupt);
    }
    Ok(())
}

/// A loaded envelope's generation, which is never 0 for a saved snapshot.
pub fn check_loaded(version: u8, generation: u64) -> (r: Result<u64, StoreError>)
    ensures
        match r {
            Ok(g) => version_check(version) is Ok && generation != 0 && g == generation,
            Err(e) => version_check(version) == Err::<(), StoreError>(e) || (version_check(
                version,
            ) is Ok && generation == 0 && e == StoreError::Corrupt),
        },
{
    check_version(version)?;
    if generation == 0 {
        return Err(StoreError::Corrupt);
    }
    Ok(generation)
}

/// What the store found on disk just before a save.
#[derive(Clone, Copy, Debug)]
pub enum OnDisk {
    /// No snapshot file.
    Absent,
    /// A snapshot whose envelope reads as `version` and `generation`, with
    /// the content digest `digest` (`None` when it could not be computed).
    Present { version: u8, generation: u64, digest: Option<[u8; 32]> },
}

/// The outcome of `next_generation`.
pub open spec fn save_decision(
    fresh: bool,
    generation: u64,
    digest: Option<[u8; 32]>,
    on_disk: OnDisk,
) -> Result<u64, StoreError> {
    if generation == u64::MAX {
        Err(StoreError::Conflict)
    } else if fresh {
        if on_disk is Absent {
            Ok((generation + 1) as u64)
        } else {
            Err(StoreError::Conflict)
        }
    } else {
        match on_disk {
            OnDisk::Absent => Err(StoreError::Corrupt),
            OnDisk::Present { version, generation: found, digest: found_digest } => {
                if version_check(version) is Err {
                    Err(version_check(version)->Err_0)
                } else if found != generation || digest is None {
                    Err(StoreError::Conflict)
                } else if found_digest is None {
                    Err(StoreError::Corrupt)
                } else if found_digest != digest {
                    Err(StoreError::Conflict)
                } else {
                    Ok((generation + 1) as u64)
                }
            },
        }
    }
}

/// The generation the next save writes, or why it must not: a save from a
/// fresh store finds no snapshot; otherwise the snapshot must still be the
/// one this handle loaded or saved last (same version rule, generation and
/// digest), so no concurrent change is silently overwritten.
pub fn next_generation(
    fresh: bool,
    generation: u64,
    digest: Option<[u8; 32]>,
    on_disk: OnDisk,
) -> (r: Result<u64, StoreError>)
    ensures
        r == save_decision(fresh, generation, digest, on_disk),
        generation == u64::MAX ==> r == Err::<u64, StoreError>(StoreError::Conflict),
        r matches Ok(g) ==> g == generation + 1 && if fresh {
            on_disk is Absent
        } else {
            on_disk matches OnDisk::Present { version, generation: found, digest: found_digest }
                && version == 1 && found == generation && digest is Some && found_digest == digest
        },
        fresh && !(on_disk is Absent) ==> r is Err,
        !fresh && on_disk is Absent ==> r is Err,
{
    if generation == u64::MAX {
        return Err(StoreError::Conflict);
    }
    let next = generation + 1;
    if fresh {
        match on_disk {
            OnDisk::Absent => Ok(next),
            OnDisk::Present { .. } => Err(StoreError::Conflict),
        }
    } else {
        match on_disk {
            OnDisk::Absent => Err(StoreError::Corrupt),
            OnDisk::Present { version, generation: found, digest: found_digest } => {
                check_version(version)?;
                if found != generation {
                    return Err(StoreError::Conflict);
                }
                let held = match digest {
                    Some(d) => d,
                    None => return Err(StoreError::Conflict),
                };
                let current = match found_digest {
                    Some(d) => d,
                    None => return Err(StoreError::Corrupt),
                };
                if !crate::protocol::same_bytes(&held, &current) {
                    return Err(StoreError::Conflict);
                }
                Ok(next)
            },
        }
    }
}

/// Whether a byte may appear in an export name.
pub open spec fn name_byte(b: u8) -> bool {
    (48 <= b <= 57) || (65 <= b <= 90) || (97 <= b <= 122) || b == 45 || b == 95 || b == 46
}

/// An acceptable export name: 1 to 128 bytes of letters, digits, `-`, `_`
/// and `.`, not hidden, and neither the snapshot nor the lock.
pub open spec fn export_name_ok(name: Seq<u8>) -> bool {
    &&& 0 < name.len() <= 128
    &&& name[0] != 46
    &&& forall|i: int| 0 <= i < name.len() ==> name_byte(#[trigger] name[i])
    &&& name != seq![115u8, 116, 97, 116, 101, 46, 106, 115, 111, 110]
    &&& name != seq![111u8, 119, 110, 101, 114, 46, 108, 111, 99, 107]
}

/// Checks an export request: an acceptable name and at most 1 MiB.
pub fn check_export(filename: &str, length: usize) -> (r: Result<(), StoreError>)
    ensures
        r is Ok <==> export_name_ok(filename.spec_bytes()) && length <= 1048576,
        r is Err ==> r == Err::<(), StoreError>(StoreError::Unsafe),
{
    let b = filename.as_bytes();
    if b.len() == 0 || b.len() > 128 || b[0] == 46u8 || length > 1048576 {
        return Err(StoreError::Unsafe);
    }
    let mut i: usize = 0;
    while i < b.len()
        invariant
            i <= b@.len(),
            b@ == filename.spec_bytes(),
            forall|j: int| 0 <= j < i ==> name_byte(#[trigger] b@[j]),
        decreases b@.len() - i,
    {
        let c = b[i];
        if !((48u8 <= c && c <= 57u8) || (65u8 <= c && c <= 90u8) || (97u8 <= c && c <= 122u8)
            || c == 45u8 || c == 95u8 || c == 46u8) {
            proof {
                assert(!name_byte(b@[i as int]));
            }
            return Err(StoreError::Unsafe);
        }
        i += 1;
    }
    let state: [u8; 10] = [115u8, 116, 97, 116, 101, 46, 106, 115, 111, 110];
    let lock: [u8; 10] = [111u8, 119, 110, 101, 114, 46, 108, 111, 99, 107];
    proof {
        assert(state@ =~= seq![115u8, 116, 97, 116, 101, 46, 106, 115, 111, 110]);
        assert(lock@ =~= seq![111u8, 119, 110, 101, 114, 46, 108, 111, 99, 107]);
    }
    if crate::codec::same_slice(b, &state) || crate::codec::same_slice(b, &lock) {
        return Err(StoreError::Unsafe);
    }
    Ok(())
}

/// The lowercase hexadecimal digit of a nibble.
pub open spec fn hex_digit(n: u8) -> char {
    if n < 10 {
        (48 + n) as char
    } else {
        (87 + n) as char
    }
}

/// Lowercase hexadecimal text of `bytes`, two digits each.
pub open spec fn hex_text(bytes: Seq<u8>) -> Seq<char>
    decreases bytes.len(),
{
    if bytes.len() == 0 {
        Seq::empty()
    } else {
        hex_text(bytes.drop_last()) + seq![hex_digit(bytes.last() / 16), hex_digit(bytes.last() % 16)]
    }
}

pub(crate) fn push_hex(out: &mut String, n: u8)
    requires
        n < 16,
    ensures
        final(out)@ == old(out)@.push(hex_digit(n)),
{
    let digits = "0123456789abcdef";
    proof {
        reveal_strlit("0123456789abcdef");
    }
    let c = digits.get_char(n as usize);
    let piece = if c == '0' { "0" } else if c == '1' { "1" } else if c == '2' { "2" } else if c == '3' {
        "3"
    } else if c == '4' {
        "4"
    } else if c == '5' {
        "5"
    } else if c == '6' {
        "6"
    } else if c == '7' {
        "7"
    } else if c == '8' {
        "8"
    } else if c == '9' {
        "9"
    } else if c == 'a' {
        "a"
    } else if c == 'b' {
        "b"
    } else if c == 'c' {
        "c"
    } else if c == 'd' {
        "d"
    } else if c == 'e' {
        "e"
    } else {
        "f"
    };
    proof {
        reveal_strlit("0");
        reveal_strlit("1");
        reveal_strlit("2");
        reveal_strlit("3");
        reveal_strlit("4");
        reveal_strlit("5");
        reveal_strlit("6");
        reveal_strlit("7");
        reveal_strlit("8");
        reveal_strlit("9");
        reveal_strlit("a");
        reveal_strlit("b");
        reveal_strlit("c");
        reveal_strlit("d");
        reveal_strlit("e");
        reveal_strlit("f");
        assert(piece@ =~= seq![hex_digit(n)]);
    }
    out.append(piece);
}

/// The name of the temporary file a save writes before renaming it over
/// the snapshot: `.pending-` and the random suffix in hexadecimal.
pub fn pending_name(suffix: &[u8; 16]) -> (r: String)
    ensures
        r@ == ".pending-"@ + hex_text(suffix@),
{
    let mut out = String::from_str(".pending-");
    let mut i: usize = 0;
    while i < 16
        invariant
            i <= 16,
            suffix@.len() == 16,
            out@ == ".pending-"@ + hex_text(suffix@.subrange(0, i as int)),
        decreases 16 - i,
    {
        let b = suffix[i];
        push_hex(&mut out, b / 16);
        push_hex(&mut out, b % 16);
        proof {
            let s = suffix@.subrange(0, i + 1);
            assert(s.drop_last() =~= suffix@.subrange(0, i as int));
            assert(s.last() == b);
        }
        i += 1;
    }
    proof {
        assert(suffix@.subrange(0, 16) =~= suffix@);
    }
    out
}

} // verus!

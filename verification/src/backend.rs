//! The WireGuard backend choice, and how recent a peer's last handshake
//! must be to count as connected.
use vstd::prelude::*;
use vstd::string::StringSliceAdditionalSpecFns;

verus! {

/// Which WireGuard implementation drives an interface.
#[derive(Debug, Clone, Copy, PartialEq, Eq, Structural)]
pub enum Backend {
    Kernel,
    Userspace,
}

impl Default for Backend {
    fn default() -> (r: Backend)
        ensures
            r == Backend::Kernel,
    {
        Backend::Kernel
    }
}

/// The ASCII lowercase of a byte.
pub open spec fn ascii_lower(b: u8) -> u8 {
    if 65 <= b <= 90 {
        (b + 32) as u8
    } else {
        b
    }
}

/// Whether `s` equals `word` (lowercase ASCII) ignoring ASCII case.
pub open spec fn names(s: Seq<u8>, word: Seq<u8>) -> bool {
    s.len() == word.len() && forall|i: int| 0 <= i < s.len() ==> ascii_lower(#[trigger] s[i]) == word[i]
}

fn lower_equals(s: &[u8], word: &[u8]) -> (r: bool)
    ensures
        r == names(s@, word@),
{
    if s.len() != word.len() {
        return false;
    }
    let mut i: usize = 0;
    while i < s.len()
        invariant
            i <= s@.len(),
            s@.len() == word@.len(),
            forall|j: int| 0 <= j < i ==> ascii_lower(#[trigger] s@[j]) == word@[j],
        decreases s@.len() - i,
    {
        let b = s[i];
        let lower = if 65u8 <= b && b <= 90u8 {
            b + 32
        } else {
            b
        };
        if lower != word[i] {
            return false;
        }
        i += 1;
    }
    true
}

pub open spec fn kernel_word() -> Seq<u8> {
    seq![107u8, 101, 114, 110, 101, 108]
}

pub open spec fn userspace_word() -> Seq<u8> {
    seq![117u8, 115, 101, 114, 115, 112, 97, 99, 101]
}

impl Backend {
    /// The names a backend is chosen by.
    pub fn variants() -> (r: [&'static str; 2])
        ensures
            r[0]@ == "kernel"@,
            r[1]@ == "userspace"@,
    {
        ["kernel", "userspace"]
    }

    /// The backend's name.
    pub fn name(&self) -> (r: &'static str)
        ensures
            r@ == match self {
                Backend::Kernel => "kernel"@,
                Backend::Userspace => "userspace"@,
            },
    {
        match self {
            Backend::Kernel => "kernel",
            Backend::Userspace => "userspace",
        }
    }

    /// Chooses a backend by name, ignoring ASCII case.
    pub fn from_str(s: &str) -> (r: Result<Backend, &'static str>)
        ensures
            match r {
                Ok(Backend::Kernel) => names(s.spec_bytes(), kernel_word()),
                Ok(Backend::Userspace) => names(s.spec_bytes(), userspace_word()) && !names(
                    s.spec_bytes(),
                    kernel_word(),
                ),
                Err(m) => !names(s.spec_bytes(), kernel_word()) && !names(
                    s.spec_bytes(),
                    userspace_word(),
                ) && m@ == "valid values: kernel, userspace."@,
            },
    {
        let kernel: [u8; 6] = [107u8, 101, 114, 110, 101, 108];
        let userspace: [u8; 9] = [117u8, 115, 101, 114, 115, 112, 97, 99, 101];
        proof {
            assert(kernel@ =~= kernel_word());
            assert(userspace@ =~= userspace_word());
        }
        let b = s.as_bytes();
        if lower_equals(b, &kernel) {
            Ok(Backend::Kernel)
        } else if lower_equals(b, &userspace) {
            Ok(Backend::Userspace)
        } else {
            Err("valid values: kernel, userspace.")
        }
    }
}

/// Seconds after which WireGuard rejects a session (REJECT_AFTER_TIME).
pub const REJECT_AFTER_SECONDS: u64 = 180;

/// Whether a peer whose last handshake was `elapsed` ago (seconds and
/// nanoseconds; `None` when there was none, or it lies in the future)
/// still counts as connected: at most `REJECT_AFTER_SECONDS` ago.
pub fn recently_connected(elapsed: Option<(u64, u32)>) -> (r: bool)
    ensures
        r == match elapsed {
            None => false,
            Some((secs, nanos)) => secs < REJECT_AFTER_SECONDS || (secs == REJECT_AFTER_SECONDS
                && nanos == 0),
        },
{
    match elapsed {
        None => false,
        Some((secs, nanos)) => secs < REJECT_AFTER_SECONDS || (secs == REJECT_AFTER_SECONDS
            && nanos == 0),
    }
}

/// Whether an opened private file may be trusted: a regular file with one
/// link, owned by this user, and in strict mode readable and writable by
/// its owner alone.
pub fn private_file_ok(is_file: bool, links: u64, owner: u32, user: u32, mode: u32, strict: bool) -> (r:
    bool)
    ensures
        r == (is_file && links == 1 && owner == user && (!strict || mode & 0o7777 == 0o600)),
{
    is_file && links == 1 && owner == user && (!strict || mode & 0o7777 == 0o600)
}

/// Whether a private file's directory is safe for atomic replacement: no
/// group or other write permission, even on a sticky directory.
pub fn private_directory_ok(mode: u32) -> (r: bool)
    ensures
        r == (mode & 0o022 == 0),
{
    mode & 0o022 == 0
}

} // verus!

//! The opt-in policy for post-quantum PSKs, checked before any key
//! generation, request or kernel change.
use vstd::prelude::*;

verus! {

/// How this endpoint takes part in post-quantum PSK exchange.
#[derive(Clone, Copy, Debug)]
pub struct PqOptions {
    /// Enable authenticated post-quantum data PSKs (requires provisioned recovery).
    pub enable_pq_psk: bool,
    /// Permit entirely legacy peers, but never silently downgrade a PQ relationship.
    pub pq_psk_permissive: bool,
    /// Target seconds between completed data-peer PSK rotations. A short
    /// interval never supersedes pending work.
    pub pq_psk_rotation_interval: u64,
}

impl Default for PqOptions {
    fn default() -> (r: PqOptions)
        ensures
            !r.enable_pq_psk,
            !r.pq_psk_permissive,
            r.pq_psk_rotation_interval == 300,
    {
        PqOptions { enable_pq_psk: false, pq_psk_permissive: false, pq_psk_rotation_interval: 300 }
    }
}

/// Why options are refused, in the order they are checked: permissive
/// mode without enablement, enablement off Linux, and an interval that is
/// zero or large enough to overflow later clock arithmetic.
pub open spec fn options_refusal(o: PqOptions, linux: bool) -> Option<Seq<char>> {
    if o.pq_psk_permissive && !o.enable_pq_psk {
        Some("--pq-psk-permissive requires --enable-pq-psk"@)
    } else if o.enable_pq_psk && !linux {
        Some("PQ PSKs are supported only on Linux"@)
    } else if o.pq_psk_rotation_interval == 0 || o.pq_psk_rotation_interval > u64::MAX / 4 {
        Some("--pq-psk-rotation-interval must be positive and non-overflowing"@)
    } else {
        None
    }
}

pub open spec fn activation_refusal() -> Seq<char> {
    "production PQ activation is unavailable until management recovery and the persistent traffic gate are installed and verified"@
}

impl PqOptions {
    /// Checks the options on a host that is (`linux`) or is not Linux.
    pub fn validate(&self, linux: bool) -> (r: Result<(), &'static str>)
        ensures
            match r {
                Ok(()) => options_refusal(*self, linux) is None,
                Err(message) => options_refusal(*self, linux) == Some(message@),
            },
    {
        if self.pq_psk_permissive && !self.enable_pq_psk {
            return Err("--pq-psk-permissive requires --enable-pq-psk");
        }
        if self.enable_pq_psk && !linux {
            return Err("PQ PSKs are supported only on Linux");
        }
        if self.pq_psk_rotation_interval == 0 || self.pq_psk_rotation_interval > u64::MAX / 4 {
            return Err("--pq-psk-rotation-interval must be positive and non-overflowing");
        }
        Ok(())
    }

    /// Fails closed: valid options are still refused while they enable PQ
    /// PSKs, which production cannot activate yet.
    pub fn production_ready(&self, linux: bool) -> (r: Result<(), &'static str>)
        ensures
            match r {
                Ok(()) => options_refusal(*self, linux) is None && !self.enable_pq_psk,
                Err(message) => options_refusal(*self, linux) == Some(message@) || (
                options_refusal(*self, linux) is None && self.enable_pq_psk && message@
                    == activation_refusal()),
            },
    {
        self.validate(linux)?;
        if self.enable_pq_psk {
            return Err(
                "production PQ activation is unavailable until management recovery and the persistent traffic gate are installed and verified",
            );
        }
        Ok(())
    }
}

} // verus!

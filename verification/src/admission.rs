//! Bounded admission of exchange requests, independent of the database and
//! of ordinary coordination requests: token buckets per caller and for the
//! whole server, with a share reserved for work on existing exchanges.
use vstd::prelude::*;

use std::collections::BTreeMap;

verus! {

/// Why a request was not admitted.
#[derive(Clone, Copy, Debug, PartialEq, Eq, Structural)]
pub enum AdmissionError {
    /// The configured limits are inconsistent.
    InvalidQuery,
    /// A budget is exhausted.
    RateLimited,
}

/// Resource limits of the exchange service.
#[derive(Clone, Copy, Debug)]
pub struct Limits {
    pub peer_active: u32,
    pub global_active: u32,
    pub peer_writes: usize,
    pub global_writes: usize,
    pub peer_rate: u32,
    pub peer_burst: u32,
    pub global_rate: u32,
    pub global_burst: u32,
    pub peer_ids: u32,
    pub bundle_ids: u32,
    pub database_bytes: u64,
    pub recovery_reserve_bytes: u64,
}

/// Whether the limits are usable: at least two writers per caller and
/// server, no more per caller than overall and at most 256 overall; rates
/// and bursts of at least two; nonzero activity and identifier budgets; and
/// a recovery reserve below the database budget that leaves 4 KiB for each
/// active exchange.
pub open spec fn limits_ok(l: Limits) -> bool {
    &&& l.peer_writes >= 2
    &&& l.global_writes >= 2
    &&& l.peer_writes <= l.global_writes
    &&& l.global_writes <= 256
    &&& l.peer_rate >= 2
    &&& l.global_rate >= 2
    &&& l.peer_burst >= 2
    &&& l.global_burst >= 2
    &&& l.peer_active != 0
    &&& l.global_active != 0
    &&& l.peer_ids != 0
    &&& l.bundle_ids != 0
    &&& l.database_bytes > l.recovery_reserve_bytes
    &&& l.recovery_reserve_bytes >= l.global_active * 4096
}

impl Default for Limits {
    fn default() -> (r: Limits)
        ensures
            r.peer_active == 64,
            r.global_active == 4096,
            r.peer_writes == 2,
            r.global_writes == 64,
            r.peer_rate == 8,
            r.peer_burst == 16,
            r.global_rate == 128,
            r.global_burst == 256,
            r.peer_ids == 10000,
            r.bundle_ids == 100000,
            r.database_bytes == 256 * 1024 * 1024,
            r.recovery_reserve_bytes == 32 * 1024 * 1024,
            limits_ok(r),
    {
        Limits {
            peer_active: 64,
            global_active: 4096,
            peer_writes: 2,
            global_writes: 64,
            peer_rate: 8,
            peer_burst: 16,
            global_rate: 128,
            global_burst: 256,
            peer_ids: 10000,
            bundle_ids: 100000,
            database_bytes: 256 * 1024 * 1024,
            recovery_reserve_bytes: 32 * 1024 * 1024,
        }
    }
}

impl Limits {
    pub fn validate(&self) -> (r: Result<(), AdmissionError>)
        ensures
            r == if limits_ok(*self) {
                Ok::<(), AdmissionError>(())
            } else {
                Err(AdmissionError::InvalidQuery)
            },
    {
        if self.peer_writes < 2 || self.global_writes < 2 || self.peer_writes > self.global_writes
            || self.global_writes > 256 || self.peer_rate < 2 || self.global_rate < 2
            || self.peer_burst < 2 || self.global_burst < 2 || self.peer_active == 0
            || self.global_active == 0 || self.peer_ids == 0 || self.bundle_ids == 0
            || self.database_bytes <= self.recovery_reserve_bytes
            || self.recovery_reserve_bytes < (self.global_active as u64) * 4096 {
            return Err(AdmissionError::InvalidQuery);
        }
        Ok(())
    }

    /// Concurrent writes that may start new work: all but a quarter (at
    /// least one) of the global writers, which stay reserved for existing
    /// exchanges.
    pub fn new_write_slots(&self) -> (r: usize)
        requires
            limits_ok(*self),
        ensures
            r == self.global_writes - if self.global_writes / 4 >= 1 {
                self.global_writes / 4
            } else {
                1
            },
            1 <= r < self.global_writes,
    {
        let reserved = if self.global_writes / 4 >= 1 {
            self.global_writes / 4
        } else {
            1
        };
        self.global_writes - reserved
    }

    /// Concurrent writes of one caller that may start new work: one fewer
    /// than its writers.
    pub fn peer_new_write_slots(&self) -> (r: usize)
        requires
            limits_ok(*self),
        ensures
            r == self.peer_writes - 1,
            r >= 1,
    {
        self.peer_writes - 1
    }
}

/// A source of time: milliseconds on a monotonic clock, and seconds since
/// the Unix epoch.
pub trait Clock {
    fn monotonic_ms(&self) -> u64;

    fn epoch_seconds(&self) -> u64;
}

/// A token bucket in thousandths of a token: `rate` tokens per second up
/// to `burst` tokens; each admission takes one token.
#[derive(Clone, Copy, Debug, PartialEq, Eq, Structural)]
pub struct Bucket {
    pub tokens: u64,
    pub last: u64,
    pub rate: u32,
    pub burst: u32,
}

/// The bucket's capacity in thousandths.
pub open spec fn capacity(b: Bucket) -> int {
    b.burst * 1000
}

/// The thousandths held at `now`: refilled at `rate` per millisecond since
/// `last` (none when the clock is behind), up to the capacity.
pub open spec fn refilled(b: Bucket, now: u64) -> int {
    let elapsed = if now >= b.last {
        now - b.last
    } else {
        0
    };
    let grown = b.tokens + elapsed * b.rate;
    if grown < capacity(b) {
        grown
    } else {
        capacity(b)
    }
}

/// A full bucket as of `now`.
pub open spec fn full_bucket(rate: u32, burst: u32, now: u64) -> Bucket {
    Bucket { tokens: (burst * 1000) as u64, last: now, rate: rate, burst: burst }
}

/// A bucket's invariant: never more than its capacity.
pub open spec fn bucket_ok(b: Bucket) -> bool {
    b.tokens <= capacity(b)
}

fn saturating_product(a: u64, b: u64) -> (r: u64)
    ensures
        r == if a * b > u64::MAX {
            u64::MAX as int
        } else {
            a * b
        },
{
    if b == 0 {
        assert(a * b == 0) by (nonlinear_arith)
            requires
                b == 0,
        ;
        0
    } else if a > u64::MAX / b {
        assert(a * b > u64::MAX) by (nonlinear_arith)
            requires
                a > u64::MAX / b,
                b > 0,
        ;
        u64::MAX
    } else {
        assert(a * b <= u64::MAX) by (nonlinear_arith)
            requires
                a <= u64::MAX / b,
                b > 0,
        ;
        a * b
    }
}

impl Bucket {
    /// A full bucket.
    pub fn new(rate: u32, burst: u32, now: u64) -> (r: Bucket)
        ensures
            r == full_bucket(rate, burst, now),
            bucket_ok(r),
    {
        Bucket { tokens: (burst as u64) * 1000, last: now, rate: rate, burst: burst }
    }

    /// Refills the bucket up to `now` and takes one token if a whole one is
    /// there. The bucket's time never moves backwards.
    pub fn take(&mut self, now: u64) -> (r: bool)
        ensures
            final(self).rate == old(self).rate,
            final(self).burst == old(self).burst,
            final(self).last == if now > old(self).last {
                now
            } else {
                old(self).last
            },
            r == (refilled(*old(self), now) >= 1000),
            final(self).tokens == if r {
                refilled(*old(self), now) - 1000
            } else {
                refilled(*old(self), now)
            },
            bucket_ok(*final(self)),
    {
        let elapsed = now.saturating_sub(self.last);
        let product = saturating_product(elapsed, self.rate as u64);
        let grown = self.tokens.saturating_add(product);
        let cap = (self.burst as u64) * 1000;
        proof {
            let e = if now >= self.last {
                now - self.last
            } else {
                0
            };
            assert(elapsed == e);
            assert(e * self.rate >= 0) by (nonlinear_arith)
                requires
                    e >= 0,
                    self.rate >= 0,
            ;
        }
        self.tokens = if grown < cap {
            grown
        } else {
            cap
        };
        if now > self.last {
            self.last = now;
        }
        if self.tokens < 1000 {
            false
        } else {
            self.tokens = self.tokens - 1000;
            true
        }
    }
}

/// Both buckets of one caller.
#[derive(Clone, Copy, Debug, PartialEq, Eq, Structural)]
pub struct CallerBuckets {
    pub all: Bucket,
    pub new: Bucket,
}

/// The shared admission state: global buckets for all work and for new
/// work, and each known caller's buckets.
pub struct Admission {
    pub all: Bucket,
    pub new: Bucket,
    pub peers: BTreeMap<i64, CallerBuckets>,
}

/// Buckets debited tentatively for one request, committed only once every
/// concurrency permit is also held.
#[derive(Clone, Copy, Debug)]
pub struct Ticket {
    pub peer: i64,
    pub all: Bucket,
    pub new: Bucket,
    pub caller: CallerBuckets,
}

/// A bucket after a tentative take when `taken`, unchanged otherwise, and
/// whether that take succeeded.
pub open spec fn tried(b: Bucket, now: u64, taken: bool) -> (Bucket, bool) {
    if taken {
        let t = refilled(b, now);
        (
            Bucket {
                tokens: (if t >= 1000 {
                    t - 1000
                } else {
                    t
                }) as u64,
                last: if now > b.last {
                    now
                } else {
                    b.last
                },
                ..b
            },
            t >= 1000,
        )
    } else {
        (b, true)
    }
}

/// Whether a request passes a pair of buckets: the new-work bucket when
/// the request starts new work, and the all-work bucket in any case.
pub open spec fn passes(all: Bucket, new: Bucket, now: u64, fresh: bool) -> bool {
    tried(new, now, fresh).1 && tried(all, now, true).1
}

/// The buckets a caller starts with.
pub open spec fn initial_buckets(l: Limits, now: u64) -> CallerBuckets {
    CallerBuckets {
        all: full_bucket(l.peer_rate, l.peer_burst, now),
        new: full_bucket((l.peer_rate / 2) as u32, (l.peer_burst / 2) as u32, now),
    }
}

/// The buckets `peer` is checked against: its own, or a new caller's.
pub open spec fn caller_buckets(peers: Map<i64, CallerBuckets>, peer: i64, l: Limits, now: u64) -> CallerBuckets {
    if peers.contains_key(peer) {
        peers[peer]
    } else {
        initial_buckets(l, now)
    }
}

fn attempt(b: &Bucket, now: u64, taken: bool) -> (r: (Bucket, bool))
    ensures
        r == tried(*b, now, taken),
{
    let mut copy = *b;
    if taken {
        let ok = copy.take(now);
        (copy, ok)
    } else {
        (copy, true)
    }
}

impl Admission {
    /// Full global buckets: the new-work bucket has half the rate and burst.
    pub fn new(limits: &Limits, now: u64) -> (r: Admission)
        ensures
            r.all == full_bucket(limits.global_rate, limits.global_burst, now),
            r.new == full_bucket(limits.global_rate / 2, limits.global_burst / 2, now),
            r.peers@ == Map::<i64, CallerBuckets>::empty(),
    {
        Admission {
            all: Bucket::new(limits.global_rate, limits.global_burst, now),
            new: Bucket::new(limits.global_rate / 2, limits.global_burst / 2, now),
            peers: BTreeMap::new(),
        }
    }

    /// Tests every bucket for a request of `peer` (new work when `fresh`)
    /// against snapshots, debiting nothing: a refused request never drains
    /// a budget. An unknown caller beyond the `peer_ids` budget is refused;
    /// otherwise a caller seen for the first time gets full buckets.
    pub fn check(&mut self, peer: i64, fresh: bool, now: u64, limits: &Limits) -> (r: Result<
        Ticket,
        AdmissionError,
    >)
        ensures
            final(self).all == old(self).all,
            final(self).new == old(self).new,
            forall|p: i64| #[trigger]
                old(self).peers@.contains_key(p) ==> final(self).peers@.contains_key(p)
                    && final(self).peers@[p] == old(self).peers@[p],
            final(self).peers@.dom() == old(self).peers@.dom() || final(self).peers@.dom() == old(self).peers@.dom().insert(peer),
            !old(self).peers@.contains_key(peer) && old(self).peers@.len() >= limits.peer_ids
                ==> r == Err::<Ticket, AdmissionError>(AdmissionError::RateLimited) && final(self).peers@ == old(self).peers@,
            !passes(old(self).all, old(self).new, now, fresh) ==> r is Err && final(self).peers@
                == old(self).peers@,
            r is Err ==> r == Err::<Ticket, AdmissionError>(AdmissionError::RateLimited),
            r matches Ok(t) ==> {
                let caller = final(self).peers@[peer];
                &&& final(self).peers@.contains_key(peer)
                &&& !old(self).peers@.contains_key(peer) ==> caller == initial_buckets(
                    *limits,
                    now,
                )
                &&& t.peer == peer
                &&& passes(old(self).all, old(self).new, now, fresh)
                &&& passes(caller.all, caller.new, now, fresh)
                &&& t.all == tried(old(self).all, now, true).0
                &&& t.new == tried(old(self).new, now, fresh).0
                &&& t.caller.all == tried(caller.all, now, true).0
                &&& t.caller.new == tried(caller.new, now, fresh).0
            },
            old(self).peers@.len() <= limits.peer_ids ==> final(self).peers@.len()
                <= limits.peer_ids,
            // A known caller, or a new one while there is room, is admitted
            // exactly when the global and the caller's buckets both pass.
            (old(self).peers@.contains_key(peer) || old(self).peers@.len() < limits.peer_ids)
                ==> (r is Ok <==> passes(old(self).all, old(self).new, now, fresh) && passes(
                caller_buckets(old(self).peers@, peer, *limits, now).all,
                caller_buckets(old(self).peers@, peer, *limits, now).new,
                now,
                fresh,
            )),
    {
        let known = self.peers.contains_key(&peer);
        if !known && self.peers.len() >= limits.peer_ids as usize {
            return Err(AdmissionError::RateLimited);
        }
        let (global_new, new_ok) = attempt(&self.new, now, fresh);
        if !new_ok {
            return Err(AdmissionError::RateLimited);
        }
        let (global_all, all_ok) = attempt(&self.all, now, true);
        if !all_ok {
            return Err(AdmissionError::RateLimited);
        }
        let caller = match self.peers.get(&peer) {
            Some(c) => *c,
            None => {
                let c = CallerBuckets {
                    all: Bucket::new(limits.peer_rate, limits.peer_burst, now),
                    new: Bucket::new(limits.peer_rate / 2, limits.peer_burst / 2, now),
                };
                self.peers.insert(peer, c);
                c
            },
        };
        let (caller_new, caller_new_ok) = attempt(&caller.new, now, fresh);
        if !caller_new_ok {
            return Err(AdmissionError::RateLimited);
        }
        let (caller_all, caller_all_ok) = attempt(&caller.all, now, true);
        if !caller_all_ok {
            return Err(AdmissionError::RateLimited);
        }
        Ok(
            Ticket {
                peer: peer,
                all: global_all,
                new: global_new,
                caller: CallerBuckets { all: caller_all, new: caller_new },
            },
        )
    }

    /// Debits the buckets a ticket tested, once its permits are held.
    pub fn commit(&mut self, ticket: &Ticket)
        ensures
            final(self).all == ticket.all,
            final(self).new == ticket.new,
            final(self).peers@ == old(self).peers@.insert(ticket.peer, ticket.caller),
    {
        self.all = ticket.all;
        self.new = ticket.new;
        self.peers.insert(ticket.peer, ticket.caller);
    }
}

/// Free concurrency slots: writers of any kind, and among them those that
/// may start new work.
#[derive(Clone, Copy, Debug, PartialEq, Eq, Structural)]
pub struct Slots {
    pub writes: usize,
    pub new_writes: usize,
}

/// Whether the slots one writer needs (a new-work one too when `fresh`)
/// are free.
pub open spec fn available(s: Slots, fresh: bool) -> bool {
    s.writes > 0 && (!fresh || s.new_writes > 0)
}

/// The slots after one writer (of new work when `fresh`) took its share.
pub open spec fn taken(s: Slots, fresh: bool) -> Slots {
    Slots {
        writes: (s.writes - 1) as usize,
        new_writes: if fresh {
            (s.new_writes - 1) as usize
        } else {
            s.new_writes
        },
    }
}

/// The slots after one writer (of new work when `fresh`) gave its share
/// back.
pub open spec fn returned(s: Slots, fresh: bool) -> Slots {
    Slots {
        writes: (s.writes + 1) as usize,
        new_writes: if fresh {
            (s.new_writes + 1) as usize
        } else {
            s.new_writes
        },
    }
}

impl Slots {
    /// All slots free.
    pub fn new(writes: usize, new_writes: usize) -> (r: Slots)
        ensures
            r == (Slots { writes: writes, new_writes: new_writes }),
    {
        Slots { writes: writes, new_writes: new_writes }
    }

    /// Takes a writer slot, and a new-work slot too when `fresh`, only if
    /// every slot needed is free; otherwise takes none.
    pub fn acquire(&mut self, fresh: bool) -> (r: bool)
        ensures
            r == available(*old(self), fresh),
            *final(self) == if r {
                taken(*old(self), fresh)
            } else {
                *old(self)
            },
    {
        if self.writes == 0 || (fresh && self.new_writes == 0) {
            return false;
        }
        self.writes = self.writes - 1;
        if fresh {
            self.new_writes = self.new_writes - 1;
        }
        true
    }

    /// Returns the slots one `acquire(fresh)` took.
    pub fn release(&mut self, fresh: bool)
        requires
            old(self).writes < usize::MAX,
            fresh ==> old(self).new_writes < usize::MAX,
        ensures
            *final(self) == returned(*old(self), fresh),
    {
        self.writes = self.writes + 1;
        if fresh {
            self.new_writes = self.new_writes + 1;
        }
    }
}

/// A server's write admission: the token buckets, the global writer
/// slots, and each caller's writer slots.
pub struct WriteAdmission {
    pub admission: Admission,
    pub writers: Slots,
    pub callers: BTreeMap<i64, Slots>,
}

/// The writer slots `peer` is admitted against: its own, or a new caller's.
pub open spec fn caller_slots(callers: Map<i64, Slots>, peer: i64, l: Limits) -> Slots {
    if callers.contains_key(peer) {
        callers[peer]
    } else {
        Slots { writes: l.peer_writes, new_writes: (l.peer_writes - 1) as usize }
    }
}

/// Whether the buckets admit a request of `peer`: a known caller, or a new
/// one while there is room, whose global and own buckets pass.
pub open spec fn buckets_admit(a: Admission, peer: i64, fresh: bool, now: u64, l: Limits) -> bool {
    &&& (a.peers@.contains_key(peer) || a.peers@.len() < l.peer_ids)
    &&& passes(a.all, a.new, now, fresh)
    &&& passes(
        caller_buckets(a.peers@, peer, l, now).all,
        caller_buckets(a.peers@, peer, l, now).new,
        now,
        fresh,
    )
}

impl WriteAdmission {
    /// Full buckets and all slots free, with no caller known yet.
    pub fn new(limits: &Limits, now: u64) -> (r: WriteAdmission)
        requires
            limits_ok(*limits),
        ensures
            r.admission.all == full_bucket(limits.global_rate, limits.global_burst, now),
            r.admission.new == full_bucket(limits.global_rate / 2, limits.global_burst / 2, now),
            r.admission.peers@ == Map::<i64, CallerBuckets>::empty(),
            r.writers.writes == limits.global_writes,
            r.writers.new_writes < limits.global_writes,
            r.callers@ == Map::<i64, Slots>::empty(),
    {
        WriteAdmission {
            admission: Admission::new(limits, now),
            writers: Slots::new(limits.global_writes, limits.new_write_slots()),
            callers: BTreeMap::new(),
        }
    }

    /// Admits a write by `peer` (new work when `fresh`): every bucket is
    /// tested first, then a global and a caller's writer slot are taken,
    /// and the buckets are debited only once both are held. A refusal
    /// takes no slot and debits no bucket.
    pub fn admit_write(&mut self, peer: i64, fresh: bool, now: u64, limits: &Limits) -> (r: Result<
        (),
        AdmissionError,
    >)
        requires
            limits_ok(*limits),
        ensures
            (r is Ok) == (buckets_admit(old(self).admission, peer, fresh, now, *limits) && available(
                old(self).writers,
                fresh,
            ) && available(caller_slots(old(self).callers@, peer, *limits), fresh)),
            r is Err ==> {
                &&& r == Err::<(), AdmissionError>(AdmissionError::RateLimited)
                &&& final(self).writers == old(self).writers
                &&& final(self).admission.all == old(self).admission.all
                &&& final(self).admission.new == old(self).admission.new
                &&& forall|p: i64| #[trigger]
                    old(self).admission.peers@.contains_key(p) ==> final(self).admission.peers@[p]
                        == old(self).admission.peers@[p]
                &&& forall|p: i64| #[trigger]
                    old(self).callers@.contains_key(p) ==> final(self).callers@.contains_key(p)
                        && final(self).callers@[p] == old(self).callers@[p]
            },
            r is Ok ==> {
                let caller = caller_buckets(old(self).admission.peers@, peer, *limits, now);
                &&& final(self).writers == taken(old(self).writers, fresh)
                &&& final(self).callers@ == old(self).callers@.insert(
                    peer,
                    taken(caller_slots(old(self).callers@, peer, *limits), fresh),
                )
                &&& final(self).admission.all == tried(old(self).admission.all, now, true).0
                &&& final(self).admission.new == tried(old(self).admission.new, now, fresh).0
                &&& final(self).admission.peers@ == old(self).admission.peers@.insert(
                    peer,
                    CallerBuckets {
                        all: tried(caller.all, now, true).0,
                        new: tried(caller.new, now, fresh).0,
                    },
                )
            },
    {
        let ticket = self.admission.check(peer, fresh, now, limits)?;
        if !self.writers.acquire(fresh) {
            return Err(AdmissionError::RateLimited);
        }
        let mut caller = match self.callers.get(&peer) {
            Some(c) => *c,
            None => Slots::new(limits.peer_writes, limits.peer_new_write_slots()),
        };
        if !caller.acquire(fresh) {
            proof {
                lemma_release_undoes_acquire(old(self).writers, fresh);
            }
            self.writers.release(fresh);
            self.callers.insert(peer, caller);
            return Err(AdmissionError::RateLimited);
        }
        self.callers.insert(peer, caller);
        self.admission.commit(&ticket);
        Ok(())
    }

    /// Gives back the slots one admission of `peer` (new work when `fresh`)
    /// took; counts already at their limit are left as they are.
    pub fn release(&mut self, peer: i64, fresh: bool)
        ensures
            old(self).writers.writes < usize::MAX && (fresh ==> old(self).writers.new_writes
                < usize::MAX) ==> final(self).writers == returned(old(self).writers, fresh),
            ({
                let c = old(self).callers@[peer];
                old(self).callers@.contains_key(peer) && c.writes < usize::MAX && (fresh
                    ==> c.new_writes < usize::MAX)
            }) ==> final(self).callers@ == old(self).callers@.insert(
                peer,
                returned(old(self).callers@[peer], fresh),
            ),
            !(old(self).writers.writes < usize::MAX && (fresh ==> old(self).writers.new_writes
                < usize::MAX)) ==> final(self).writers == old(self).writers,
            !({
                let c = old(self).callers@[peer];
                old(self).callers@.contains_key(peer) && c.writes < usize::MAX && (fresh
                    ==> c.new_writes < usize::MAX)
            }) ==> final(self).callers@ == old(self).callers@,
            final(self).admission == old(self).admission,
    {
        if self.writers.writes < usize::MAX && (!fresh || self.writers.new_writes < usize::MAX) {
            self.writers.release(fresh);
        }
        if let Some(c) = self.callers.get(&peer) {
            let mut caller = *c;
            if caller.writes < usize::MAX && (!fresh || caller.new_writes < usize::MAX) {
                caller.release(fresh);
                self.callers.insert(peer, caller);
            }
        }
    }
}

/// Giving back what an acquisition took restores the slots exactly.
pub proof fn lemma_release_undoes_acquire(s: Slots, fresh: bool)
    requires
        available(s, fresh),
    ensures
        returned(taken(s, fresh), fresh) == s,
{
}

} // verus!

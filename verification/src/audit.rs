//! Append-only audit log with hash-chain integrity.
//!
//! Every capability operation and agent event is logged. Each entry carries
//! the hash of the entry logged before it, so tampering is detectable.

use crate::cap_table::{AgentId, CapHandle};
use vstd::prelude::*;
use vstd::wrapping::u64_specs::wrapping_mul;

verus! {

/// Number of entries the ring keeps.
pub const AUDIT_RING_SIZE: usize = 8192;

/// FNV-1a offset basis.
pub const FNV_OFFSET: u64 = 0xcbf29ce484222325;

/// FNV-1a prime.
pub const FNV_PRIME: u64 = 0x100000001b3;

/// Hash the chain starts from, before anything is logged.
pub const AUDIT_GENESIS_HASH: u64 = 0xCAFEBABEDEADBEEF;

/// The kind of an audited event.
#[derive(Debug, Clone, Copy, PartialEq, Eq, Structural)]
pub enum AuditEvent {
    CapGranted,
    CapRevoked,
    CapDelegated,
    CapCheckFail,
    CapExpired,
    AgentSpawned,
    AgentKilled,
    AgentTimeout,
    AgentOverBudget,
    EscalationAttempt,
    KernelBoot,
}

/// The 16-bit code of each event kind, as hashed into the chain.
pub open spec fn event_code(e: AuditEvent) -> u16 {
    match e {
        AuditEvent::CapGranted => 0x01,
        AuditEvent::CapRevoked => 0x02,
        AuditEvent::CapDelegated => 0x03,
        AuditEvent::CapCheckFail => 0x05,
        AuditEvent::CapExpired => 0x06,
        AuditEvent::AgentSpawned => 0x10,
        AuditEvent::AgentKilled => 0x11,
        AuditEvent::AgentTimeout => 0x12,
        AuditEvent::AgentOverBudget => 0x13,
        AuditEvent::EscalationAttempt => 0x100,
        AuditEvent::KernelBoot => 0x1000,
    }
}

impl AuditEvent {
    /// The 16-bit code of this event kind.
    pub fn code(&self) -> (c: u16)
        ensures
            c == event_code(*self),
    {
        match self {
            AuditEvent::CapGranted => 0x01,
            AuditEvent::CapRevoked => 0x02,
            AuditEvent::CapDelegated => 0x03,
            AuditEvent::CapCheckFail => 0x05,
            AuditEvent::CapExpired => 0x06,
            AuditEvent::AgentSpawned => 0x10,
            AuditEvent::AgentKilled => 0x11,
            AuditEvent::AgentTimeout => 0x12,
            AuditEvent::AgentOverBudget => 0x13,
            AuditEvent::EscalationAttempt => 0x100,
            AuditEvent::KernelBoot => 0x1000,
        }
    }
}

/// One logged event.
#[derive(Clone, Copy)]
pub struct AuditEntry {
    pub tick: u64,
    pub agent: AgentId,
    pub event: AuditEvent,
    pub cap_handle: CapHandle,
    pub result: i32,
    pub prev_hash: u64,
}

/// One FNV-1a step: mix in a byte, then multiply by the prime.
pub open spec fn fnv_step(h: u64, b: u8) -> u64 {
    wrapping_mul(h ^ (b as u64), FNV_PRIME)
}

/// FNV-1a of `bytes`, starting from state `h`.
pub open spec fn fnv_fold(h: u64, bytes: Seq<u8>) -> u64
    decreases bytes.len(),
{
    if bytes.len() == 0 {
        h
    } else {
        fnv_step(fnv_fold(h, bytes.drop_last()), bytes.last())
    }
}

/// The `n` low bytes of `x`, least significant first.
pub open spec fn le_bytes(x: u64, n: nat) -> Seq<u8> {
    Seq::new(n, |i: int| ((x >> (8 * i) as u64) & 0xff) as u8)
}

/// The bytes of an entry that the chain hashes: every field — tick, agent,
/// event code, capability handle, result and previous hash — each
/// little-endian.
pub open spec fn entry_bytes(e: AuditEntry) -> Seq<u8> {
    le_bytes(e.tick, 8) + le_bytes(e.agent.0 as u64, 4) + le_bytes(event_code(e.event) as u64, 2)
        + le_bytes(e.cap_handle.0 as u64, 4) + le_bytes(e.result as u32 as u64, 4) + le_bytes(e.prev_hash, 8)
}

/// The hash of an entry.
pub open spec fn entry_hash(e: AuditEntry) -> u64 {
    fnv_fold(FNV_OFFSET, entry_bytes(e))
}

/// Mix the `n` low bytes of `x` into hash state `h`.
fn fnv_absorb(h: u64, x: u64, n: u64) -> (r: u64)
    requires
        n <= 8,
    ensures
        r == fnv_fold_from(h, le_bytes(x, n as nat)),
{
    let mut acc = h;
    let mut i: u64 = 0;
    while i < n
        invariant
            i <= n <= 8,
            acc == fnv_fold_from(h, le_bytes(x, n as nat).take(i as int)),
        decreases n - i,
    {
        let b = ((x >> (8 * i)) & 0xff) as u8;
        proof {
            let s = le_bytes(x, n as nat);
            assert(s.take(i + 1).drop_last() =~= s.take(i as int));
            assert(s.take(i + 1).last() == b);
        }
        acc = (acc ^ (b as u64)).wrapping_mul(FNV_PRIME);
        i += 1;
    }
    assert(le_bytes(x, n as nat).take(n as int) =~= le_bytes(x, n as nat));
    acc
}

/// FNV-1a of `bytes` starting from state `h` (the same fold, named for exec use).
pub open spec fn fnv_fold_from(h: u64, bytes: Seq<u8>) -> u64 {
    fnv_fold(h, bytes)
}

/// Folding over a concatenation folds the second part from where the first ended.
pub proof fn lemma_fnv_fold_concat(h: u64, a: Seq<u8>, b: Seq<u8>)
    ensures
        fnv_fold(h, a + b) == fnv_fold(fnv_fold(h, a), b),
    decreases b.len(),
{
    if b.len() == 0 {
        assert(a + b =~= a);
    } else {
        assert((a + b).drop_last() =~= a + b.drop_last());
        assert((a + b).last() == b.last());
        lemma_fnv_fold_concat(h, a, b.drop_last());
    }
}

/// FNV-1a hash of every field of an audit entry.
fn fnv1a(e: &AuditEntry) -> (h: u64)
    ensures
        h == entry_hash(*e),
{
    let h0: u64 = FNV_OFFSET;
    let h1 = fnv_absorb(h0, e.tick, 8);
    let h2 = fnv_absorb(h1, e.agent.0 as u64, 4);
    let h3 = fnv_absorb(h2, e.event.code() as u64, 2);
    let h4 = fnv_absorb(h3, e.cap_handle.0 as u64, 4);
    let h5 = fnv_absorb(h4, e.result as u32 as u64, 4);
    let h6 = fnv_absorb(h5, e.prev_hash, 8);
    proof {
        let b1 = le_bytes(e.tick, 8);
        let b2 = le_bytes(e.agent.0 as u64, 4);
        let b3 = le_bytes(event_code(e.event) as u64, 2);
        let b4 = le_bytes(e.cap_handle.0 as u64, 4);
        let b5 = le_bytes(e.result as u32 as u64, 4);
        let b6 = le_bytes(e.prev_hash, 8);
        lemma_fnv_fold_concat(h0, b1, b2);
        lemma_fnv_fold_concat(h0, b1 + b2, b3);
        lemma_fnv_fold_concat(h0, b1 + b2 + b3, b4);
        lemma_fnv_fold_concat(h0, b1 + b2 + b3 + b4, b5);
        lemma_fnv_fold_concat(h0, b1 + b2 + b3 + b4 + b5, b6);
    }
    h6
}

/// Append-only audit log (a ring of the most recent entries)
pub struct AuditLog {
    entries: Vec<Option<AuditEntry>>,
    head: usize,
    total: u64,
    last_hash: u64,
}

impl AuditLog {
    /// Number of retained entries.
    closed spec fn ring_len(&self) -> int {
        if self.total < AUDIT_RING_SIZE {
            self.total as int
        } else {
            AUDIT_RING_SIZE as int
        }
    }

    /// Slot of the `k`-th oldest retained entry.
    closed spec fn ring_pos(&self, k: int) -> int {
        ((if self.total < AUDIT_RING_SIZE {
            0
        } else {
            self.head as int
        }) + k) % (AUDIT_RING_SIZE as int)
    }

    /// The retained entries, oldest first.
    #[verifier::opaque]
    pub closed spec fn view(&self) -> Seq<AuditEntry> {
        Seq::new(self.ring_len() as nat, |k: int| self.entries@[self.ring_pos(k)].unwrap())
    }

    /// Number of events ever recorded.
    pub closed spec fn spec_total(&self) -> u64 {
        self.total
    }

    /// Hash of the newest entry (the genesis hash before any).
    pub closed spec fn spec_last_hash(&self) -> u64 {
        self.last_hash
    }

    /// Ring well-formedness and the hash chain: each retained entry carries
    /// the hash of the one before it, and the log's head hash is that of
    /// the newest entry.
    pub closed spec fn wf(&self) -> bool {
        &&& self.entries@.len() == AUDIT_RING_SIZE
        &&& self.head < AUDIT_RING_SIZE
        &&& self.total < AUDIT_RING_SIZE ==> self.head == self.total
        &&& forall|k: int| 0 <= k < self.ring_len() ==> self.entries@[#[trigger] self.ring_pos(k)] is Some
        &&& chain_ok(self@, self.last_hash)
        &&& self.total == 0 ==> self.last_hash == AUDIT_GENESIS_HASH
    }

    /// An empty log whose chain starts from the genesis hash.
    pub fn new() -> (l: Self)
        ensures
            l.wf(),
            l@ == Seq::<AuditEntry>::empty(),
            l.spec_total() == 0,
            l.spec_last_hash() == AUDIT_GENESIS_HASH,
    {
        let mut entries: Vec<Option<AuditEntry>> = Vec::new();
        let mut k: usize = 0;
        while k < AUDIT_RING_SIZE
            invariant
                k <= AUDIT_RING_SIZE,
                entries@.len() == k,
            decreases AUDIT_RING_SIZE - k,
        {
            entries.push(None);
            k += 1;
        }
        let l = Self { entries, head: 0, total: 0, last_hash: AUDIT_GENESIS_HASH };
        assert(l@ =~= Seq::<AuditEntry>::empty()) by {
            reveal(AuditLog::view);
        }
        assert(chain_ok(l@, AUDIT_GENESIS_HASH)) by {
            reveal(chain_ok);
        }
        l
    }

    /// Record an event; it is chained to the previous entry by hash.
    pub fn record(&mut self, tick: u64, agent: AgentId, event: AuditEvent, cap: CapHandle, result: i32)
        requires
            old(self).wf(),
            old(self).spec_total() < u64::MAX,
        ensures
            final(self).wf(),
            final(self).spec_total() == old(self).spec_total() + 1,
            ({
                let e = AuditEntry {
                    tick,
                    agent,
                    event,
                    cap_handle: cap,
                    result,
                    prev_hash: old(self).spec_last_hash(),
                };
                &&& final(self)@ == if old(self)@.len() < AUDIT_RING_SIZE {
                    old(self)@.push(e)
                } else {
                    old(self)@.drop_first().push(e)
                }
                &&& final(self).spec_last_hash() == entry_hash(e)
            }),
            audit_recorded(*old(self), *final(self), tick, agent, event, cap, result),
    {
        let ghost v0 = self@;
        let entry = AuditEntry { tick, agent, event, cap_handle: cap, result, prev_hash: self.last_hash };
        self.last_hash = fnv1a(&entry);
        let h = self.head;
        self.entries[h] = Some(entry);
        self.head = (self.head + 1) % AUDIT_RING_SIZE;
        self.total += 1;
        proof {
            Self::lemma_record_ring(old(self), self, entry);
            lemma_chain_extend(v0, old(self).last_hash, entry);
            if v0.len() == 0 {
                assert(v0.push(entry) =~= seq![entry]);
            }
        }
    }

    /// Writing an entry at the head and advancing the head appends it to the
    /// retained entries, dropping the oldest when the ring is full.
    proof fn lemma_record_ring(a: &Self, b: &Self, e: AuditEntry)
        requires
            a.entries@.len() == AUDIT_RING_SIZE,
            a.head < AUDIT_RING_SIZE,
            a.total < AUDIT_RING_SIZE ==> a.head == a.total,
            forall|k: int| 0 <= k < a.ring_len() ==> a.entries@[#[trigger] a.ring_pos(k)] is Some,
            a.total < u64::MAX,
            b.entries@ == a.entries@.update(a.head as int, Some(e)),
            b.head as int == (a.head + 1) % (AUDIT_RING_SIZE as int),
            b.total == a.total + 1,
        ensures
            b@ == if a@.len() < AUDIT_RING_SIZE {
                a@.push(e)
            } else {
                a@.drop_first().push(e)
            },
            forall|k: int| 0 <= k < b.ring_len() ==> b.entries@[#[trigger] b.ring_pos(k)] is Some,
            b.total < AUDIT_RING_SIZE ==> b.head == b.total,
    {
        reveal(AuditLog::view);
        let h = a.head as int;
        if a.total < AUDIT_RING_SIZE {
            assert forall|k: int| 0 <= k < b.ring_len() implies b.ring_pos(k) == k by {}
            assert forall|k: int| 0 <= k < a.ring_len() implies a.ring_pos(k) == k by {}
            assert(b@ =~= a@.push(e));
            assert forall|k: int| 0 <= k < b.ring_len() implies b.entries@[#[trigger] b.ring_pos(k)] is Some by {
                if k < a.ring_len() {
                    assert(a.entries@[a.ring_pos(k)] is Some);
                }
            }
        } else {
            assert forall|k: int| 0 <= k < 8191 implies a.ring_pos(k + 1) == b.ring_pos(k) && b.ring_pos(k) != h by {
                lemma_ring_shift(h, k);
            }
            assert(b.ring_pos(8191) == h) by {
                lemma_ring_shift(h, 8191);
            }
            assert(b@ =~= a@.drop_first().push(e));
            assert forall|k: int| 0 <= k < b.ring_len() implies b.entries@[#[trigger] b.ring_pos(k)] is Some by {
                if k < 8191 {
                    assert(a.entries@[a.ring_pos(k + 1)] is Some);
                }
            }
        }
    }

    /// The hash chain of a well-formed log: every retained entry carries the
    /// hash of the entry recorded just before it, and the log's head hash is
    /// that of the newest entry.
    pub proof fn lemma_hash_chain(&self)
        requires
            self.wf(),
        ensures
            forall|k: int| 1 <= k < self@.len() ==> (#[trigger] self@[k]).prev_hash == entry_hash(self@[k - 1]),
            self@.len() > 0 ==> self.spec_last_hash() == entry_hash(self@.last()),
            self.spec_total() == 0 ==> self.spec_last_hash() == AUDIT_GENESIS_HASH,
    {
        reveal(chain_ok);
    }

    /// The hash of the newest entry: the head of the chain.
    pub fn last_hash(&self) -> (h: u64)
        ensures
            h == self.spec_last_hash(),
    {
        self.last_hash
    }

    /// Number of events ever recorded
    pub fn total_events(&self) -> (n: u64)
        ensures
            n == self.spec_total(),
    {
        self.total
    }
}

/// `b` is `a` after recording one event: the entry carries `a`'s newest hash,
/// is appended to the retained entries (dropping the oldest when the ring is
/// full) and becomes the newest hash.
pub open spec fn audit_recorded(
    a: AuditLog,
    b: AuditLog,
    tick: u64,
    agent: AgentId,
    event: AuditEvent,
    cap: CapHandle,
    result: i32,
) -> bool {
    let e = AuditEntry { tick, agent, event, cap_handle: cap, result, prev_hash: a.spec_last_hash() };
    &&& b.wf()
    &&& b.spec_total() == a.spec_total() + 1
    &&& b@ == if a@.len() < AUDIT_RING_SIZE {
        a@.push(e)
    } else {
        a@.drop_first().push(e)
    }
    &&& b.spec_last_hash() == entry_hash(e)
}

/// The chain property of a sequence of entries whose newest hash is `last`.
#[verifier::opaque]
pub open spec fn chain_ok(s: Seq<AuditEntry>, last: u64) -> bool {
    &&& forall|k: int| 1 <= k < s.len() ==> (#[trigger] s[k]).prev_hash == entry_hash(s[k - 1])
    &&& s.len() > 0 ==> last == entry_hash(s.last())
}

/// Appending an entry that carries the current head hash keeps the chain,
/// also when the oldest entry is dropped to make room.
pub proof fn lemma_chain_extend(s: Seq<AuditEntry>, last: u64, e: AuditEntry)
    requires
        chain_ok(s, last),
        e.prev_hash == last,
    ensures
        s.len() > 0 ==> chain_ok(s.push(e), entry_hash(e)),
        s.len() > 0 ==> chain_ok(s.drop_first().push(e), entry_hash(e)),
        chain_ok(seq![e], entry_hash(e)),
{
    reveal(chain_ok);
    if s.len() > 0 {
        let t = s.push(e);
        assert forall|k: int| 1 <= k < t.len() implies (#[trigger] t[k]).prev_hash == entry_hash(t[k - 1]) by {
            if k == t.len() - 1 {
                assert(t[k - 1] == s.last());
            }
        }
        let u = s.drop_first().push(e);
        assert forall|k: int| 1 <= k < u.len() implies (#[trigger] u[k]).prev_hash == entry_hash(u[k - 1]) by {
            if k == u.len() - 1 {
                assert(u[k - 1] == s.last());
            } else {
                assert(u[k] == s[k + 1]);
                assert(u[k - 1] == s[k]);
            }
        }
    }
}

/// Advancing the ring's start by one shifts every position by one.
proof fn lemma_ring_shift(h: int, k: int)
    requires
        0 <= h < 8192,
        0 <= k < 8192,
    ensures
        ((h + 1) % 8192 + k) % 8192 == (h + (k + 1)) % 8192,
        k < 8191 ==> ((h + 1) % 8192 + k) % 8192 != h,
        k == 8191 ==> ((h + 1) % 8192 + k) % 8192 == h,
{
}

/// Record the kernel boot event at `tick`.
pub fn log_boot(log: &mut AuditLog, tick: u64)
    requires
        old(log).wf(),
        old(log).spec_total() < u64::MAX,
    ensures
        audit_recorded(*old(log), *final(log), tick, AgentId(0), AuditEvent::KernelBoot, CapHandle(0), 0i32),
        ({
            let e = AuditEntry {
                tick,
                agent: AgentId(0),
                event: AuditEvent::KernelBoot,
                cap_handle: CapHandle(0),
                result: 0,
                prev_hash: old(log).spec_last_hash(),
            };
            &&& final(log).spec_total() == old(log).spec_total() + 1
            &&& final(log)@ == if old(log)@.len() < AUDIT_RING_SIZE {
                old(log)@.push(e)
            } else {
                old(log)@.drop_first().push(e)
            }
            &&& final(log)@.last() == e
            &&& final(log).spec_last_hash() == entry_hash(e)
        }),
{
    log.record(tick, AgentId(0), AuditEvent::KernelBoot, CapHandle(0), 0);
}

} // verus!

//! Kernel message log: a ring buffer of system events (boot, agent
//! lifecycle, errors), readable newest first.

use crate::text::{decode_or, utf8_or};
use vstd::prelude::*;
use vstd::string::StringSliceAdditionalSpecFns;

verus! {

/// Max log entries
pub const LOG_SIZE: usize = 128;

/// Max message length (bytes)
pub const MSG_LEN: usize = 96;

/// Log severity
#[derive(Debug, Clone, Copy, PartialEq, Eq, Structural)]
pub enum LogLevel {
    Boot,
    Info,
    Warn,
    Agent,
    Error,
}

/// The four-letter tag of each severity.
pub open spec fn level_tag(l: LogLevel) -> Seq<char> {
    match l {
        LogLevel::Boot => "BOOT"@,
        LogLevel::Info => "INFO"@,
        LogLevel::Warn => "WARN"@,
        LogLevel::Agent => "AGNT"@,
        LogLevel::Error => "ERR!"@,
    }
}

impl LogLevel {
    /// The four-letter tag of this severity.
    pub fn tag(&self) -> (t: &'static str)
        ensures
            t@ == level_tag(*self),
    {
        match self {
            LogLevel::Boot => "BOOT",
            LogLevel::Info => "INFO",
            LogLevel::Warn => "WARN",
            LogLevel::Agent => "AGNT",
            LogLevel::Error => "ERR!",
        }
    }
}

/// A kernel log entry
#[derive(Clone, Copy)]
pub struct KlogEntry {
    pub tick: u64,
    pub level: LogLevel,
    msg: [u8; 96],
    msg_len: usize,
    pub valid: bool,
}

/// The bytes kept of a message: at most 96.
pub open spec fn kept_message(bytes: Seq<u8>) -> Seq<u8> {
    if bytes.len() <= MSG_LEN {
        bytes
    } else {
        bytes.subrange(0, MSG_LEN as int)
    }
}

impl KlogEntry {
    /// The stored message bytes.
    pub closed spec fn spec_message(&self) -> Seq<u8> {
        self.msg@.subrange(0, self.msg_len as int)
    }

    /// The tick of the entry.
    pub closed spec fn spec_tick(&self) -> u64 {
        self.tick
    }

    /// The severity of the entry.
    pub closed spec fn spec_level(&self) -> LogLevel {
        self.level
    }

    /// The slot holds a logged entry.
    pub closed spec fn spec_valid(&self) -> bool {
        self.valid
    }

    /// The stored length is within the buffer.
    pub closed spec fn wf(&self) -> bool {
        self.msg_len <= MSG_LEN
    }

    /// An unused slot.
    fn empty() -> (e: Self)
        ensures
            e.tick == 0,
            e.level == LogLevel::Info,
            e.wf(),
            !e.spec_valid(),
            e.spec_message() == Seq::<u8>::empty(),
    {
        let e = Self { tick: 0, level: LogLevel::Info, msg: [0; 96], msg_len: 0, valid: false };
        assert(e.spec_message() =~= Seq::<u8>::empty());
        e
    }

    /// The message as text ("?" when its bytes are not UTF-8)
    pub fn message(&self) -> (s: &str)
        requires
            self.wf(),
        ensures
            s@ == decode_or(self.spec_message(), "?"@),
    {
        let all: &[u8] = self.msg.as_slice();
        utf8_or(&all[0..self.msg_len], "?")
    }
}

/// Kernel ring buffer log
pub struct Klog {
    entries: Vec<KlogEntry>,
    head: usize,
    total: u64,
}

impl Klog {
    /// Number of retained entries.
    closed spec fn ring_len(&self) -> int {
        if self.total < LOG_SIZE {
            self.total as int
        } else {
            LOG_SIZE as int
        }
    }

    /// Slot of the `k`-th oldest retained entry.
    closed spec fn ring_pos(&self, k: int) -> int {
        ((if self.total < LOG_SIZE {
            0
        } else {
            self.head as int
        }) + k) % (LOG_SIZE as int)
    }

    /// The retained entries, oldest first.
    #[verifier::opaque]
    pub closed spec fn view(&self) -> Seq<KlogEntry> {
        Seq::new(self.ring_len() as nat, |k: int| self.entries@[self.ring_pos(k)])
    }

    /// Number of entries ever logged.
    pub closed spec fn spec_total(&self) -> u64 {
        self.total
    }

    /// Ring well-formedness.
    pub closed spec fn wf(&self) -> bool {
        &&& self.entries@.len() == LOG_SIZE
        &&& self.head < LOG_SIZE
        &&& self.total < LOG_SIZE ==> self.head == self.total
        &&& forall|k: int| 0 <= k < LOG_SIZE ==> (#[trigger] self.entries@[k]).wf()
    }

    /// Every retained entry is well formed, and the log keeps at most 128.
    pub proof fn lemma_wf_entries(&self)
        requires
            self.wf(),
        ensures
            forall|k: int| 0 <= k < self@.len() ==> (#[trigger] self@[k]).wf(),
            self@.len() <= LOG_SIZE,
            self@.len() == if self.spec_total() < LOG_SIZE { self.spec_total() as int } else { LOG_SIZE as int },
    {
        reveal(Klog::view);
    }

    /// An empty log.
    pub fn new() -> (l: Self)
        ensures
            l.wf(),
            l@ == Seq::<KlogEntry>::empty(),
            l.spec_total() == 0,
    {
        let mut entries: Vec<KlogEntry> = Vec::new();
        let mut k: usize = 0;
        while k < LOG_SIZE
            invariant
                k <= LOG_SIZE,
                entries@.len() == k,
                forall|j: int| 0 <= j < k ==> (#[trigger] entries@[j]).wf(),
            decreases LOG_SIZE - k,
        {
            entries.push(KlogEntry::empty());
            k += 1;
        }
        let l = Self { entries, head: 0, total: 0 };
        assert(l@ =~= Seq::<KlogEntry>::empty()) by {
            reveal(Klog::view);
        }
        l
    }

    /// Write a log entry stamped with `tick`
    pub fn log(&mut self, level: LogLevel, msg: &str, tick: u64)
        requires
            old(self).wf(),
            old(self).spec_total() < u64::MAX,
        ensures
            final(self).wf(),
            final(self).spec_total() == old(self).spec_total() + 1,
            final(self)@.drop_last() == if old(self)@.len() < LOG_SIZE {
                old(self)@
            } else {
                old(self)@.drop_first()
            },
            final(self)@.len() > 0,
            final(self)@.last().spec_tick() == tick,
            final(self)@.last().spec_level() == level,
            final(self)@.last().spec_valid(),
            final(self)@.last().spec_message() == kept_message(msg.spec_bytes()),
    {
        let bytes = msg.as_bytes();
        let n = if bytes.len() < MSG_LEN {
            bytes.len()
        } else {
            MSG_LEN
        };
        let h = self.head;
        let mut entry = self.entries[h];
        entry.tick = tick;
        entry.level = level;
        let mut i: usize = 0;
        while i < n
            invariant
                n <= MSG_LEN,
                n <= bytes@.len(),
                i <= n,
                entry.tick == tick,
                entry.level == level,
                forall|k: int| 0 <= k < i ==> entry.msg@[k] == bytes@[k],
            decreases n - i,
        {
            entry.msg[i] = bytes[i];
            i += 1;
        }
        entry.msg_len = n;
        entry.valid = true;
        assert(entry.spec_message() =~= kept_message(bytes@));
        self.entries[h] = entry;
        self.head = (self.head + 1) % LOG_SIZE;
        self.total += 1;
        proof {
            Self::lemma_log_ring(old(self), self, entry);
        }
    }

    /// Writing an entry at the head and advancing the head appends it to the
    /// retained entries, dropping the oldest when the ring is full.
    proof fn lemma_log_ring(a: &Self, b: &Self, e: KlogEntry)
        requires
            a.entries@.len() == LOG_SIZE,
            a.head < LOG_SIZE,
            a.total < LOG_SIZE ==> a.head == a.total,
            a.total < u64::MAX,
            b.entries@ == a.entries@.update(a.head as int, e),
            b.head as int == (a.head + 1) % (LOG_SIZE as int),
            b.total == a.total + 1,
        ensures
            b@ == if a@.len() < LOG_SIZE {
                a@.push(e)
            } else {
                a@.drop_first().push(e)
            },
            b.total < LOG_SIZE ==> b.head == b.total,
    {
        reveal(Klog::view);
        let h = a.head as int;
        if a.total < LOG_SIZE {
            assert forall|k: int| 0 <= k < b.ring_len() implies b.ring_pos(k) == k by {}
            assert forall|k: int| 0 <= k < a.ring_len() implies a.ring_pos(k) == k by {}
            assert(b@ =~= a@.push(e));
        } else {
            assert forall|k: int| 0 <= k < 127 implies a.ring_pos(k + 1) == b.ring_pos(k) && b.ring_pos(k) != h by {
                lemma_log_ring_shift(h, k);
            }
            assert(b.ring_pos(127) == h) by {
                lemma_log_ring_shift(h, 127);
            }
            assert(b@ =~= a@.drop_first().push(e));
        }
    }

    /// The last `n` entries (at most 128), newest first
    pub fn recent(&self, n: usize) -> (r: Vec<KlogEntry>)
        requires
            self.wf(),
        ensures
            r@.len() == if n < self@.len() { n as int } else { self@.len() as int },
            forall|i: int| 0 <= i < r@.len() ==> #[trigger] r@[i] == self@[self@.len() - 1 - i],
    {
        proof {
            reveal(Klog::view);
        }
        let mut count = if n < LOG_SIZE {
            n
        } else {
            LOG_SIZE
        };
        if self.total < count as u64 {
            count = self.total as usize;
        }
        let mut out: Vec<KlogEntry> = Vec::new();
        let mut i: usize = 0;
        while i < count
            invariant
                self.wf(),
                count as int == if n < self@.len() { n as int } else { self@.len() as int },
                count <= LOG_SIZE,
                i <= count,
                out@.len() == i,
                forall|k: int| 0 <= k < i ==> #[trigger] out@[k] == self@[self@.len() - 1 - k],
            decreases count - i,
        {
            let idx = (self.head + LOG_SIZE - 1 - i) % LOG_SIZE;
            proof {
                reveal(Klog::view);
                let len = self@.len() as int;
                assert(self.ring_pos(len - 1 - i) == idx as int) by {
                    lemma_log_newest(self.head as int, self.total as int, len, i as int);
                }
            }
            out.push(self.entries[idx]);
            i += 1;
        }
        out
    }

    /// Total entries ever logged
    pub fn total(&self) -> (t: u64)
        ensures
            t == self.spec_total(),
    {
        self.total
    }
}

/// Advancing the ring's start by one shifts every position by one.
proof fn lemma_log_ring_shift(h: int, k: int)
    requires
        0 <= h < 128,
        0 <= k < 128,
    ensures
        ((h + 1) % 128 + k) % 128 == (h + (k + 1)) % 128,
        k < 127 ==> ((h + 1) % 128 + k) % 128 != h,
        k == 127 ==> ((h + 1) % 128 + k) % 128 == h,
{
}

/// The `i`-th newest retained entry sits `i + 1` slots before the head.
proof fn lemma_log_newest(head: int, total: int, len: int, i: int)
    requires
        0 <= head < 128,
        total >= 0,
        total < 128 ==> head == total,
        len == if total < 128 { total } else { 128 },
        0 <= i < len,
    ensures
        ((if total < 128 { 0 } else { head }) + (len - 1 - i)) % 128 == (head + 128 - 1 - i) % 128,
{
}

/// Log `msg` at severity `level` and tick `tick`
pub fn log(klog: &mut Klog, level: LogLevel, msg: &str, tick: u64)
    requires
        old(klog).wf(),
        old(klog).spec_total() < u64::MAX,
    ensures
        final(klog).wf(),
        final(klog).spec_total() == old(klog).spec_total() + 1,
        final(klog)@.len() > 0,
        final(klog)@.last().spec_tick() == tick,
        final(klog)@.last().spec_level() == level,
        final(klog)@.last().spec_message() == kept_message(msg.spec_bytes()),
{
    klog.log(level, msg, tick);
}

/// Log a boot message
pub fn boot(klog: &mut Klog, msg: &str, tick: u64)
    requires
        old(klog).wf(),
        old(klog).spec_total() < u64::MAX,
    ensures
        final(klog).wf(),
        final(klog).spec_total() == old(klog).spec_total() + 1,
        final(klog)@.len() > 0,
        final(klog)@.last().spec_level() == LogLevel::Boot,
        final(klog)@.last().spec_tick() == tick,
        final(klog)@.last().spec_message() == kept_message(msg.spec_bytes()),
{
    log(klog, LogLevel::Boot, msg, tick);
}

/// Log an informational message
pub fn info(klog: &mut Klog, msg: &str, tick: u64)
    requires
        old(klog).wf(),
        old(klog).spec_total() < u64::MAX,
    ensures
        final(klog).wf(),
        final(klog).spec_total() == old(klog).spec_total() + 1,
        final(klog)@.len() > 0,
        final(klog)@.last().spec_level() == LogLevel::Info,
        final(klog)@.last().spec_tick() == tick,
        final(klog)@.last().spec_message() == kept_message(msg.spec_bytes()),
{
    log(klog, LogLevel::Info, msg, tick);
}

/// Log a warning
pub fn warn(klog: &mut Klog, msg: &str, tick: u64)
    requires
        old(klog).wf(),
        old(klog).spec_total() < u64::MAX,
    ensures
        final(klog).wf(),
        final(klog).spec_total() == old(klog).spec_total() + 1,
        final(klog)@.len() > 0,
        final(klog)@.last().spec_level() == LogLevel::Warn,
        final(klog)@.last().spec_tick() == tick,
        final(klog)@.last().spec_message() == kept_message(msg.spec_bytes()),
{
    log(klog, LogLevel::Warn, msg, tick);
}

/// Log an agent lifecycle event
pub fn agent(klog: &mut Klog, msg: &str, tick: u64)
    requires
        old(klog).wf(),
        old(klog).spec_total() < u64::MAX,
    ensures
        final(klog).wf(),
        final(klog).spec_total() == old(klog).spec_total() + 1,
        final(klog)@.len() > 0,
        final(klog)@.last().spec_level() == LogLevel::Agent,
        final(klog)@.last().spec_tick() == tick,
        final(klog)@.last().spec_message() == kept_message(msg.spec_bytes()),
{
    log(klog, LogLevel::Agent, msg, tick);
}

/// Log an error
pub fn error(klog: &mut Klog, msg: &str, tick: u64)
    requires
        old(klog).wf(),
        old(klog).spec_total() < u64::MAX,
    ensures
        final(klog).wf(),
        final(klog).spec_total() == old(klog).spec_total() + 1,
        final(klog)@.len() > 0,
        final(klog)@.last().spec_level() == LogLevel::Error,
        final(klog)@.last().spec_tick() == tick,
        final(klog)@.last().spec_message() == kept_message(msg.spec_bytes()),
{
    log(klog, LogLevel::Error, msg, tick);
}

} // verus!

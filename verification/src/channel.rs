//! Inter-agent communication channels.
//!
//! A channel is a fixed-size ring buffer of messages, delivered first in,
//! first out. This is the kernel's IPC primitive.

use crate::cap_table::AgentId;
use vstd::prelude::*;

verus! {

/// Maximum message size in bytes
pub const MAX_MSG_SIZE: usize = 256;

/// Maximum messages in a channel buffer
pub const CHANNEL_CAPACITY: usize = 64;

/// Maximum channels in the system
pub const MAX_CHANNELS: usize = 128;

/// A single message in a channel
#[derive(Clone, Copy)]
pub struct Message {
    /// Sender agent ID
    pub sender: AgentId,
    /// Message payload
    pub data: [u8; 256],
    /// Actual length of data
    pub len: usize,
    /// Tick when sent
    pub tick: u64,
}

/// The bytes a message carries when built from `payload`: at most 256.
pub open spec fn kept_payload(payload: Seq<u8>) -> Seq<u8> {
    if payload.len() <= MAX_MSG_SIZE {
        payload
    } else {
        payload.subrange(0, MAX_MSG_SIZE as int)
    }
}

impl Message {
    /// The bytes this message carries.
    pub open spec fn spec_payload(&self) -> Seq<u8> {
        self.data@.subrange(0, self.len as int)
    }

    /// A message from `sender` with `payload` cut to 256 bytes.
    pub fn new(sender: AgentId, payload: &[u8], tick: u64) -> (m: Self)
        ensures
            m.sender == sender,
            m.tick == tick,
            m.len <= MAX_MSG_SIZE,
            m.spec_payload() == kept_payload(payload@),
            forall|i: int| m.len <= i < MAX_MSG_SIZE ==> m.data@[i] == 0,
    {
        let mut data = [0u8; 256];
        let len = if payload.len() < MAX_MSG_SIZE {
            payload.len()
        } else {
            MAX_MSG_SIZE
        };
        let mut i: usize = 0;
        while i < len
            invariant
                len <= MAX_MSG_SIZE,
                len <= payload@.len(),
                i <= len,
                forall|k: int| 0 <= k < i ==> data@[k] == payload@[k],
                forall|k: int| i <= k < MAX_MSG_SIZE ==> data@[k] == 0,
            decreases len - i,
        {
            data[i] = payload[i];
            i += 1;
        }
        assert(data@.subrange(0, len as int) =~= kept_payload(payload@));
        Message { sender, data, len, tick }
    }

    /// The bytes this message carries
    pub fn payload(&self) -> (p: &[u8])
        requires
            self.len <= MAX_MSG_SIZE,
        ensures
            p@ == self.spec_payload(),
    {
        let all: &[u8] = self.data.as_slice();
        &all[0..self.len]
    }
}

/// Moving the read position one slot forward shifts every later slot by one.
proof fn lemma_ring_step(t: int, k: int)
    requires
        0 <= t < 64,
        0 <= k < 63,
    ensures
        ((t + 1) % 64 + k) % 64 == (t + (k + 1)) % 64,
        ((t + 1) % 64 + k) % 64 != t,
{
}

/// A channel — ring buffer of messages
pub struct Channel {
    /// Channel ID
    pub id: u64,
    /// Ring buffer
    buffer: Vec<Option<Message>>,
    /// Write position
    head: usize,
    /// Read position
    tail: usize,
    /// Number of messages in buffer
    count: usize,
}

impl Channel {
    /// The channel's ID.
    pub closed spec fn chan_id(&self) -> u64 {
        self.id
    }

    /// The queued messages, oldest first.
    pub closed spec fn view(&self) -> Seq<Message> {
        Seq::new(
            self.count as nat,
            |k: int| self.buffer@[(self.tail + k) % (CHANNEL_CAPACITY as int)].unwrap(),
        )
    }

    /// Ring-buffer well-formedness; a queued message holds at most
    /// `MAX_MSG_SIZE` bytes.
    pub closed spec fn wf(&self) -> bool {
        &&& self.buffer@.len() == CHANNEL_CAPACITY
        &&& self.head < CHANNEL_CAPACITY
        &&& self.tail < CHANNEL_CAPACITY
        &&& self.count <= CHANNEL_CAPACITY
        &&& self.head as int == (self.tail + self.count) % (CHANNEL_CAPACITY as int)
        &&& forall|k: int|
            0 <= k < self.count ==> (#[trigger] self.buffer@[(self.tail + k) % (
            CHANNEL_CAPACITY as int)]) is Some
        &&& forall|k: int| 0 <= k < self.count ==> (#[trigger] self@[k]).len <= MAX_MSG_SIZE
    }

    /// An empty channel with ID `id`.
    pub fn new(id: u64) -> (c: Self)
        ensures
            c.wf(),
            c.chan_id() == id,
            c@ == Seq::<Message>::empty(),
    {
        let mut buffer: Vec<Option<Message>> = Vec::with_capacity(CHANNEL_CAPACITY);
        let mut k: usize = 0;
        while k < CHANNEL_CAPACITY
            invariant
                k <= CHANNEL_CAPACITY,
                buffer@.len() == k,
            decreases CHANNEL_CAPACITY - k,
        {
            buffer.push(None);
            k += 1;
        }
        let c = Channel { id, buffer, head: 0, tail: 0, count: 0 };
        assert(c@ =~= Seq::<Message>::empty());
        c
    }

    /// Send a message into the channel
    #[verifier::spinoff_prover]
    #[verifier::rlimit(40)]
    pub fn send(&mut self, msg: Message) -> (r: Result<(), &'static str>)
        requires
            old(self).wf(),
            msg.len <= MAX_MSG_SIZE,
        ensures
            final(self).wf(),
            final(self).chan_id() == old(self).chan_id(),
            r is Err <==> old(self)@.len() >= CHANNEL_CAPACITY,
            r matches Err(e) ==> e@ == "channel full"@ && *final(self) == *old(self),
            r is Ok ==> final(self)@ == old(self)@.push(msg),
            final(self)@ == chan_step(old(self)@, Some(msg)),
    {
        if self.count >= CHANNEL_CAPACITY {
            return Err("channel full");
        }
        let ghost q = self@;
        let h = self.head;
        self.buffer[h] = Some(msg);
        self.head = (self.head + 1) % CHANNEL_CAPACITY;
        self.count += 1;
        proof {
            assert forall|k: int| 0 <= k < self.count implies (#[trigger] self.buffer@[(self.tail + k) % (
            CHANNEL_CAPACITY as int)]) is Some by {
                if k < self.count - 1 {
                    assert((self.tail + k) % 64 != h as int);
                }
            }
            assert forall|k: int| 0 <= k < self.count - 1 implies self@[k] == q[k] by {
                assert((self.tail + k) % 64 != h as int);
            }
            assert(self@ =~= q.push(msg));
            assert(self@ == chan_step(q, Some(msg)));
        }
        Ok(())
    }

    /// Receive the oldest message from the channel
    #[verifier::spinoff_prover]
    #[verifier::rlimit(40)]
    pub fn recv(&mut self) -> (r: Option<Message>)
        requires
            old(self).wf(),
        ensures
            final(self).wf(),
            final(self).chan_id() == old(self).chan_id(),
            r is None <==> old(self)@.len() == 0,
            r is None ==> *final(self) == *old(self),
            r matches Some(m) ==> m == old(self)@[0] && final(self)@ == old(self)@.drop_first()
                && m.len <= MAX_MSG_SIZE,
            final(self)@ == chan_step(old(self)@, None),
    {
        if self.count == 0 {
            return None;
        }
        let ghost q = self@;
        let t = self.tail;
        proof {
            assert((self.tail + 0) % 64 == t as int);
            assert(self.buffer@[(self.tail + 0) % (CHANNEL_CAPACITY as int)] is Some);
            assert(q[0].len <= MAX_MSG_SIZE);
        }
        let msg = self.buffer[t];
        self.buffer[t] = None;
        self.tail = (self.tail + 1) % CHANNEL_CAPACITY;
        self.count -= 1;
        proof {
            assert forall|k: int| 0 <= k < self.count implies (#[trigger] self.buffer@[(self.tail + k) % (
            CHANNEL_CAPACITY as int)]) is Some by {
                lemma_ring_step(t as int, k);
            }
            assert forall|k: int| 0 <= k < self.count implies self@[k] == q[k + 1] by {
                lemma_ring_step(t as int, k);
            }
            assert(self@ =~= q.drop_first());
        }
        msg
    }

    /// Check if channel has messages
    pub fn has_messages(&self) -> (b: bool)
        requires
            self.wf(),
        ensures
            b == (self@.len() > 0),
    {
        self.count > 0
    }

    /// Get current message count
    pub fn message_count(&self) -> (n: usize)
        requires
            self.wf(),
        ensures
            n as int == self@.len(),
            n <= CHANNEL_CAPACITY,
    {
        self.count
    }

    /// A well-formed channel holds at most `CHANNEL_CAPACITY` messages, each
    /// of at most `MAX_MSG_SIZE` bytes.
    pub proof fn lemma_wf_bounds(&self)
        requires
            self.wf(),
        ensures
            self@.len() <= CHANNEL_CAPACITY,
            forall|k: int| 0 <= k < self@.len() ==> (#[trigger] self@[k]).len <= MAX_MSG_SIZE,
    {
    }
}

/// Channel registry — manages all channels
pub struct ChannelRegistry {
    channels: Vec<Channel>,
    next_id: u64,
}

/// Index `i` holds the first channel with ID `id`.
pub open spec fn first_channel_with_id(s: Seq<Channel>, id: u64, i: int) -> bool {
    0 <= i < s.len() && s[i].chan_id() == id && forall|k: int| 0 <= k < i ==> s[k].chan_id() != id
}

/// Some channel of `s` has ID `id`.
pub open spec fn has_channel(s: Seq<Channel>, id: u64) -> bool {
    exists|i: int| 0 <= i < s.len() && s[i].chan_id() == id
}

impl ChannelRegistry {
    /// The channels, in creation order.
    pub closed spec fn view(&self) -> Seq<Channel> {
        self.channels@
    }

    /// The ID the next channel will get.
    pub closed spec fn spec_next_id(&self) -> u64 {
        self.next_id
    }

    /// Channel `i` has ID `i` and is well-formed; IDs are handed out in
    /// order, so there are never more IDs used than channels.
    pub closed spec fn wf(&self) -> bool {
        &&& self.next_id as int == self.channels@.len()
        &&& self.channels@.len() <= MAX_CHANNELS
        &&& forall|i: int| 0 <= i < self.channels@.len() ==> (#[trigger] self.channels@[i]).id == i
        &&& forall|i: int| 0 <= i < self.channels@.len() ==> (#[trigger] self.channels@[i]).wf()
    }

    /// Every well-formed registry holds channel `i` under ID `i`.
    pub proof fn lemma_wf_ids(&self)
        requires
            self.wf(),
        ensures
            self@.len() <= MAX_CHANNELS,
            self.spec_next_id() == self@.len(),
            forall|i: int| 0 <= i < self@.len() ==> (#[trigger] self@[i]).chan_id() == i,
            forall|i: int| 0 <= i < self@.len() ==> (#[trigger] self@[i]).wf(),
    {
    }

    /// An empty registry.
    pub fn new() -> (r: Self)
        ensures
            r.wf(),
            r@ == Seq::<Channel>::empty(),
    {
        Self { channels: Vec::new(), next_id: 0 }
    }

    /// Create a new channel, returns channel ID
    pub fn create(&mut self) -> (r: Result<u64, &'static str>)
        requires
            old(self).wf(),
        ensures
            final(self).wf(),
            r is Err <==> old(self)@.len() >= MAX_CHANNELS,
            r matches Err(e) ==> e@ == "max channels reached"@ && final(self)@ == old(self)@,
            r matches Ok(id) ==> id == old(self).spec_next_id() && final(self)@.len() == old(
                self,
            )@.len() + 1 && final(self)@.drop_last() == old(self)@ && final(self)@.last().chan_id() == id
                && final(self)@.last().wf() && final(self)@.last()@ == Seq::<Message>::empty(),
    {
        if self.channels.len() >= MAX_CHANNELS {
            return Err("max channels reached");
        }
        let id = self.next_id;
        self.next_id += 1;
        self.channels.push(Channel::new(id));
        proof {
            assert(self.channels@.drop_last() =~= old(self).channels@);
        }
        Ok(id)
    }

    /// Index of the first channel with ID `id`.
    fn find_index(&self, id: u64) -> (r: Option<usize>)
        ensures
            match r {
                Some(i) => first_channel_with_id(self@, id, i as int),
                None => !has_channel(self@, id),
            },
    {
        let mut i: usize = 0;
        while i < self.channels.len()
            invariant
                i <= self.channels@.len(),
                forall|k: int| 0 <= k < i ==> self.channels@[k].chan_id() != id,
            decreases self.channels@.len() - i,
        {
            if self.channels[i].id == id {
                return Some(i);
            }
            i += 1;
        }
        None
    }

    /// Get a channel by ID
    pub fn get(&self, id: u64) -> (r: Option<&Channel>)
        ensures
            r is None <==> !has_channel(self@, id),
            r matches Some(c) ==> exists|i: int| first_channel_with_id(self@, id, i) && *c == self@[i],
    {
        match self.find_index(id) {
            Some(i) => Some(&self.channels[i]),
            None => None,
        }
    }

    /// Get a mutable channel by ID
    pub fn get_mut(&mut self, id: u64) -> (r: Option<&mut Channel>)
        ensures
            final(self).spec_next_id() == old(self).spec_next_id(),
            r is None <==> !has_channel(old(self)@, id),
            r is None ==> final(self)@ == old(self)@,
            r matches Some(c) ==> exists|i: int|
                first_channel_with_id(old(self)@, id, i) && *c == old(self)@[i] && final(self)@
                    == old(self)@.update(i, *final(c)),
    {
        match self.find_index(id) {
            Some(i) => Some(&mut self.channels[i]),
            None => None,
        }
    }

    /// Well-formedness depends only on the channels and the next ID.
    pub proof fn lemma_same_wf(a: &Self, b: &Self)
        requires
            a.wf(),
            b@ == a@,
            b.spec_next_id() == a.spec_next_id(),
        ensures
            b.wf(),
    {
    }

    /// A registry stays well-formed when one of its channels is replaced by a
    /// well-formed one with the same ID.
    pub proof fn lemma_update_keeps_wf(old_r: &Self, new_r: &Self, i: int, c: Channel)
        requires
            old_r.wf(),
            0 <= i < old_r@.len(),
            c.chan_id() == old_r@[i].chan_id(),
            c.wf(),
            new_r@ == old_r@.update(i, c),
            new_r.spec_next_id() == old_r.spec_next_id(),
        ensures
            new_r.wf(),
    {
    }
}

/// The queue after one operation on a channel with queue `q`: `Some(m)`
/// sends `m`, `None` receives, each as `send` and `recv` do it (a send to a
/// full channel and a receive from an empty one change nothing).
pub open spec fn chan_step(q: Seq<Message>, op: Option<Message>) -> Seq<Message> {
    match op {
        Some(m) => if q.len() < CHANNEL_CAPACITY {
            q.push(m)
        } else {
            q
        },
        None => if q.len() > 0 {
            q.drop_first()
        } else {
            q
        },
    }
}

/// The queue after the operations `ops`, in order.
pub open spec fn chan_run(q: Seq<Message>, ops: Seq<Option<Message>>) -> Seq<Message>
    decreases ops.len(),
{
    if ops.len() == 0 {
        q
    } else {
        chan_step(chan_run(q, ops.drop_last()), ops.last())
    }
}

/// How many of `ops` were sends that succeeded.
pub open spec fn sends_delivered(q: Seq<Message>, ops: Seq<Option<Message>>) -> int
    decreases ops.len(),
{
    if ops.len() == 0 {
        0
    } else {
        sends_delivered(q, ops.drop_last()) + if ops.last() is Some && chan_run(q, ops.drop_last()).len()
            < CHANNEL_CAPACITY {
            1int
        } else {
            0int
        }
    }
}

/// How many of `ops` were receives that returned a message.
pub open spec fn receives_delivered(q: Seq<Message>, ops: Seq<Option<Message>>) -> int
    decreases ops.len(),
{
    if ops.len() == 0 {
        0
    } else {
        receives_delivered(q, ops.drop_last()) + if ops.last() is None && chan_run(q, ops.drop_last()).len()
            > 0 {
            1int
        } else {
            0int
        }
    }
}

/// A channel's message count is what it held, plus the sends that
/// succeeded, minus the receives that returned a message; it never exceeds
/// the capacity. (`send` and `recv` each ensure their step is `chan_step`;
/// a channel starts empty.)
pub proof fn lemma_count_is_sends_minus_receives(q: Seq<Message>, ops: Seq<Option<Message>>)
    requires
        q.len() <= CHANNEL_CAPACITY,
    ensures
        chan_run(q, ops).len() == q.len() + sends_delivered(q, ops) - receives_delivered(q, ops),
        chan_run(q, ops).len() <= CHANNEL_CAPACITY,
    decreases ops.len(),
{
    if ops.len() > 0 {
        lemma_count_is_sends_minus_receives(q, ops.drop_last());
    }
}

/// Channels deliver in order: after sending `a` then `b` to a channel with
/// queue `q`, receiving yields the front of `q` first, and `a` comes out
/// before `b`.
pub proof fn lemma_fifo_order(q: Seq<Message>, a: Message, b: Message)
    ensures
        q.push(a).push(b)[q.len() as int] == a,
        q.push(a).push(b)[q.len() + 1int] == b,
        q.len() == 0 ==> q.push(a).push(b).drop_first() == seq![b],
{
    if q.len() == 0 {
        assert(q.push(a).push(b).drop_first() =~= seq![b]);
    }
}

} // verus!

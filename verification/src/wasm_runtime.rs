//! WASM agent runtime: what the kernel decides around a sandboxed agent.
//!
//! An agent is spawned, audited and granted its capabilities before its
//! module runs, and killed afterwards. Its host functions
//! (`tc.log`, `tc.chan_send`, `tc.chan_recv`) act only through capabilities:
//! every call checks the agent's capability at the current tick first.

use crate::agent::{
    AgentState, AgentTable, ResourceBudget, agent_with_state, next_u32, default_budget_spec, first_with_id, has_id,
    stored_name_len,
};
use vstd::string::StringSliceAdditionalSpecFns;
use crate::audit::{AuditEvent, AuditLog, audit_recorded};
use crate::cap_table::{
    AgentId, CapEntry, CapHandle, CapTable, check_outcome, entry_at, new_slot, put_slot, revoke_where_spec, slot_used,
    table_full,
};
use crate::capability::types::{Rights, RIGHT_READ, RIGHT_WRITE};
use crate::channel::{
    Channel, ChannelRegistry, Message, CHANNEL_CAPACITY, MAX_MSG_SIZE, first_channel_with_id, has_channel, kept_payload,
};
use crate::resource::ResourceRef;
use vstd::prelude::*;

verus! {

/// Lifetime of a WASM agent, in ticks.
pub const AGENT_LIFETIME: u64 = 60_000;

/// Longest text `tc.log` prints, in bytes.
pub const LOG_MAX: usize = 255;

/// What the host functions of one agent may use.
#[derive(Debug, Clone, Copy)]
pub struct HostState {
    pub agent_id: AgentId,
    pub serial_cap: Option<CapHandle>,
    /// Capability and channel the agent may write to.
    pub channel_write_cap: Option<(CapHandle, u64)>,
    /// Capability and channel the agent may read from.
    pub channel_read_cap: Option<(CapHandle, u64)>,
}

/// The entry a fresh grant of `rights` on `resource` to `agent` at `tick` holds.
pub open spec fn granted_entry(
    e: CapEntry,
    agent: AgentId,
    resource: ResourceRef,
    rights: u32,
    tick: u64,
) -> bool {
    &&& e.resource == resource
    &&& e.rights@ == rights
    &&& e.owner == agent
    &&& e.parent is None
    &&& e.expires_at == 0
    &&& !e.revoked
    &&& e.created_at == tick
}

/// `c1` is table `c0` after granting `rights` on `resource` to `agent` at
/// `tick` with no expiry, and `r` is the new handle: the lowest free slot, or
/// a new slot after the last, gets the capability, or nothing changes when
/// the table is full.
pub open spec fn granted(
    c0: Seq<Option<CapEntry>>,
    c1: Seq<Option<CapEntry>>,
    r: Option<CapHandle>,
    agent: AgentId,
    resource: ResourceRef,
    rights: u32,
    tick: u64,
) -> bool {
    &&& (r is None <==> table_full(c0))
    &&& (r is None ==> c1 == c0)
    &&& (r matches Some(h) ==> {
        &&& new_slot(c0, h.0 as int)
        &&& c1 == put_slot(c0, h.0 as int, entry_at(c1, h.0 as int))
        &&& slot_used(c1, h.0 as int)
        &&& granted_entry(entry_at(c1, h.0 as int), agent, resource, rights, tick)
    })
}

/// The handle of an optional channel capability.
pub open spec fn handle_of(c: Option<(CapHandle, u64)>) -> Option<CapHandle> {
    match c {
        Some((h, _)) => Some(h),
        None => None,
    }
}

/// A channel capability, as requested: granted on channel `chan` when one
/// was asked for (`c0` to `c1`), nothing otherwise.
pub open spec fn channel_granted(
    c0: Seq<Option<CapEntry>>,
    c1: Seq<Option<CapEntry>>,
    requested: Option<u64>,
    got: Option<(CapHandle, u64)>,
    agent: AgentId,
    rights: u32,
    tick: u64,
) -> bool {
    match requested {
        Some(chan) => {
            &&& granted(c0, c1, handle_of(got), agent, ResourceRef::Channel { channel_id: chan }, rights, tick)
            &&& (got matches Some((_, c)) ==> c == chan)
        },
        None => c1 == c0 && got is None,
    }
}

/// Grant `rights` on `resource` to `agent`; `None` when the table is full.
fn grant_cap(caps: &mut CapTable, agent: AgentId, resource: ResourceRef, rights: Rights, tick: u64) -> (r: Option<
    CapHandle,
>)
    requires
        old(caps).wf(),
    ensures
        final(caps).wf(),
        granted(old(caps)@, final(caps)@, r, agent, resource, rights@, tick),
{
    match caps.grant(agent, resource, rights, 0, tick) {
        Ok(h) => Some(h),
        Err(_) => None,
    }
}

/// Spawn a WASM agent and grant it what it may use: the serial console for
/// writing, and the channels it is given for writing and reading, in that
/// order. The spawn is audited. Fails only when the agent table is full.
pub fn prepare_agent(
    agents: &mut AgentTable,
    caps: &mut CapTable,
    audit: &mut AuditLog,
    name: &str,
    parent: Option<AgentId>,
    chan_write: Option<u64>,
    chan_read: Option<u64>,
    tick: u64,
) -> (r: Result<HostState, &'static str>)
    requires
        old(caps).wf(),
        old(audit).wf(),
        old(audit).spec_total() < u64::MAX,
    ensures
        final(caps).wf(),
        r is Err <==> old(agents)@.len() >= crate::agent::MAX_AGENTS,
        r matches Err(e) ==> e@ == "max agents reached"@ && final(agents)@ == old(agents)@ && final(caps)@
            == old(caps)@ && *final(audit) == *old(audit) && final(agents).spec_next_id() == old(
            agents,
        ).spec_next_id(),
        r matches Ok(h) ==> {
            let a = final(agents)@.last();
            &&& h.agent_id.0 == old(agents).spec_next_id()
            &&& final(agents).spec_next_id() == next_u32(old(agents).spec_next_id())
            &&& final(agents)@ == old(agents)@.push(a)
            &&& a.id == h.agent_id
            &&& a.name_len == stored_name_len(name.spec_bytes().len() as int)
            &&& a.name@.subrange(0, a.name_len as int) == name.spec_bytes().subrange(0, a.name_len as int)
            &&& a.capabilities@.len() == 0
            &&& a.state == AgentState::Initializing
            &&& a.budget == default_budget_spec()
            &&& a.parent == parent
            &&& a.spawn_tick == tick
            &&& a.max_lifetime == AGENT_LIFETIME
            &&& audit_recorded(
                *old(audit),
                *final(audit),
                tick,
                h.agent_id,
                AuditEvent::AgentSpawned,
                CapHandle(0),
                0i32,
            )
            &&& exists|c1: Seq<Option<CapEntry>>, c2: Seq<Option<CapEntry>>|
                granted(old(caps)@, c1, h.serial_cap, h.agent_id, ResourceRef::Serial, RIGHT_WRITE, tick)
                    && channel_granted(c1, c2, chan_write, h.channel_write_cap, h.agent_id, RIGHT_WRITE, tick)
                    && channel_granted(c2, final(caps)@, chan_read, h.channel_read_cap, h.agent_id, RIGHT_READ, tick)
        },
{
    let agent_id = match agents.spawn(name, parent, ResourceBudget::default_budget(), AGENT_LIFETIME, tick) {
        Ok(id) => id,
        Err(e) => return Err(e),
    };
    audit.record(tick, agent_id, AuditEvent::AgentSpawned, CapHandle(0), 0);
    let serial_cap = grant_cap(caps, agent_id, ResourceRef::Serial, Rights::write(), tick);
    let ghost c1 = caps@;
    let channel_write_cap = match chan_write {
        Some(chan_id) => match grant_cap(caps, agent_id, ResourceRef::Channel { channel_id: chan_id }, Rights::write(), tick) {
            Some(cap) => Some((cap, chan_id)),
            None => None,
        },
        None => None,
    };
    let ghost c2 = caps@;
    let channel_read_cap = match chan_read {
        Some(chan_id) => match grant_cap(caps, agent_id, ResourceRef::Channel { channel_id: chan_id }, Rights::read(), tick) {
            Some(cap) => Some((cap, chan_id)),
            None => None,
        },
        None => None,
    };
    let h = HostState { agent_id, serial_cap, channel_write_cap, channel_read_cap };
    proof {
        assert(channel_granted(c1, c2, chan_write, h.channel_write_cap, agent_id, RIGHT_WRITE, tick));
        assert(channel_granted(c2, caps@, chan_read, h.channel_read_cap, agent_id, RIGHT_READ, tick));
        assert(granted(old(caps)@, c1, h.serial_cap, agent_id, ResourceRef::Serial, RIGHT_WRITE, tick));
        assert(exists|d1: Seq<Option<CapEntry>>, d2: Seq<Option<CapEntry>>|
            granted(old(caps)@, d1, h.serial_cap, h.agent_id, ResourceRef::Serial, RIGHT_WRITE, tick)
                && channel_granted(d1, d2, chan_write, h.channel_write_cap, h.agent_id, RIGHT_WRITE, tick)
                && channel_granted(d2, caps@, chan_read, h.channel_read_cap, h.agent_id, RIGHT_READ, tick)) by {
            assert(granted(old(caps)@, c1, h.serial_cap, h.agent_id, ResourceRef::Serial, RIGHT_WRITE, tick)
                && channel_granted(c1, c2, chan_write, h.channel_write_cap, h.agent_id, RIGHT_WRITE, tick)
                && channel_granted(c2, caps@, chan_read, h.channel_read_cap, h.agent_id, RIGHT_READ, tick));
        }
    }
    Ok(h)
}

/// Mark a spawned agent active once its module is instantiated.
pub fn activate_agent(agents: &mut AgentTable, id: AgentId)
    ensures
        final(agents).spec_next_id() == old(agents).spec_next_id(),
        !has_id(old(agents)@, id) ==> final(agents)@ == old(agents)@,
        has_id(old(agents)@, id) ==> exists|i: int|
            first_with_id(old(agents)@, id, i) && final(agents)@ == old(agents)@.update(i, final(agents)@[i])
                && agent_with_state(old(agents)@[i], final(agents)@[i], AgentState::Active),
{
    match agents.get_mut(id) {
        Some(a) => a.set_state(AgentState::Active),
        None => {},
    }
}

/// Tear an agent down after its run: kill it (revoking all it owns) and
/// audit the kill.
pub fn finish_agent(agents: &mut AgentTable, caps: &mut CapTable, audit: &mut AuditLog, id: AgentId, tick: u64)
    requires
        old(caps).wf(),
        old(audit).wf(),
        old(audit).spec_total() < u64::MAX,
    ensures
        final(caps).wf(),
        final(agents).spec_next_id() == old(agents).spec_next_id(),
        !has_id(old(agents)@, id) ==> final(agents)@ == old(agents)@ && final(caps)@ == old(caps)@,
        has_id(old(agents)@, id) ==> {
            &&& exists|i: int|
                first_with_id(old(agents)@, id, i) && final(agents)@ == old(agents)@.update(
                    i,
                    final(agents)@[i],
                ) && agent_with_state(old(agents)@[i], final(agents)@[i], AgentState::Terminated)
            &&& final(caps)@ == revoke_where_spec(old(caps)@, |e: CapEntry| e.owner == id)
        },
        audit_recorded(*old(audit), *final(audit), tick, id, AuditEvent::AgentKilled, CapHandle(0), 0i32),
{
    let _ = agents.kill(id, caps);
    audit.record(tick, id, AuditEvent::AgentKilled, CapHandle(0), 0);
}

/// `tc.log` may print: the agent holds a serial capability that passes a
/// WRITE check now.
pub fn log_allowed(caps: &CapTable, host: &HostState, tick: u64) -> (b: bool)
    ensures
        b == (host.serial_cap matches Some(c) && check_outcome(caps@, c.0 as int, RIGHT_WRITE, tick) is Ok),
{
    match host.serial_cap {
        Some(cap) => caps.check(cap, Rights::write(), tick).is_ok(),
        None => false,
    }
}

/// `len` as a byte count, at most `limit`; a negative length counts as huge.
pub open spec fn clamp_len(len: i32, limit: int) -> int {
    if len < 0 || len > limit {
        limit
    } else {
        len as int
    }
}

/// Bytes `tc.log(ptr, len)` reads: at most 255.
pub fn log_len(len: i32) -> (n: usize)
    ensures
        n == clamp_len(len, LOG_MAX as int),
{
    if len < 0 || len > 255 {
        LOG_MAX
    } else {
        len as usize
    }
}

/// Bytes `tc.chan_send(chan, ptr, len)` reads: at most 256.
pub fn send_len(len: i32) -> (n: usize)
    ensures
        n == clamp_len(len, MAX_MSG_SIZE as int),
{
    if len < 0 || len > 256 {
        MAX_MSG_SIZE
    } else {
        len as usize
    }
}

/// The agent holds a channel-write capability that passes a WRITE check now.
pub open spec fn write_allowed(caps: Seq<Option<CapEntry>>, host: HostState, tick: u64) -> bool {
    match host.channel_write_cap {
        Some((cap, _)) => check_outcome(caps, cap.0 as int, RIGHT_WRITE, tick) is Ok,
        None => false,
    }
}

/// The channel of the agent's channel-write capability.
pub open spec fn write_channel(host: HostState) -> u64 {
    match host.channel_write_cap {
        Some((_, chan)) => chan,
        None => 0,
    }
}

/// The agent holds a channel-read capability that passes a READ check now.
pub open spec fn read_allowed(caps: Seq<Option<CapEntry>>, host: HostState, tick: u64) -> bool {
    match host.channel_read_cap {
        Some((cap, _)) => check_outcome(caps, cap.0 as int, RIGHT_READ, tick) is Ok,
        None => false,
    }
}

/// The channel of the agent's channel-read capability.
pub open spec fn read_channel(host: HostState) -> u64 {
    match host.channel_read_cap {
        Some((_, chan)) => chan,
        None => 0,
    }
}

/// Channel `chan` exists and its queue has room.
pub open spec fn channel_has_room(s: Seq<Channel>, chan: u64) -> bool {
    exists|i: int| first_channel_with_id(s, chan, i) && s[i]@.len() < CHANNEL_CAPACITY
}

/// Channel `chan` exists and holds a message.
pub open spec fn channel_has_message(s: Seq<Channel>, chan: u64) -> bool {
    exists|i: int| first_channel_with_id(s, chan, i) && s[i]@.len() > 0
}

/// `t` is `s` with a message from `sender` at `tick` carrying `payload`
/// queued on channel `chan`.
pub open spec fn message_queued(
    s: Seq<Channel>,
    t: Seq<Channel>,
    chan: u64,
    sender: AgentId,
    tick: u64,
    payload: Seq<u8>,
) -> bool {
    exists|i: int|
        first_channel_with_id(s, chan, i) && t == s.update(i, t[i]) && t[i].chan_id() == chan && t[i]@.drop_last()
            == s[i]@ && t[i]@.len() == s[i]@.len() + 1 && t[i]@.last().sender == sender && t[i]@.last().tick
            == tick && t[i]@.last().spec_payload() == payload
}

/// `t` is `s` with the oldest message of channel `chan` taken, and `bytes`
/// holds its first `len` bytes.
pub open spec fn message_taken(s: Seq<Channel>, t: Seq<Channel>, chan: u64, len: i32, bytes: Seq<u8>) -> bool {
    exists|i: int|
        first_channel_with_id(s, chan, i) && t == s.update(i, t[i]) && t[i].chan_id() == chan && t[i]@
            == s[i]@.drop_first() && bytes == s[i]@[0].spec_payload().take(clamp_len(len, s[i]@[0].len as int))
}

/// `tc.chan_send`: with a channel-write capability that passes a WRITE
/// check now, queue `data` (the bytes read from the agent's memory; `None`
/// when the read failed) on the capability's channel. Gives the number of
/// bytes sent, or -1.
pub fn host_chan_send(
    caps: &CapTable,
    channels: &mut ChannelRegistry,
    host: &HostState,
    data: Option<&[u8]>,
    tick: u64,
) -> (r: i32)
    requires
        old(channels).wf(),
        data matches Some(d) ==> d@.len() <= MAX_MSG_SIZE,
    ensures
        final(channels).wf(),
        final(channels).spec_next_id() == old(channels).spec_next_id(),
        r != -1 <==> write_allowed(caps@, *host, tick) && data is Some && channel_has_room(
            old(channels)@,
            write_channel(*host),
        ),
        r == -1 ==> final(channels)@ == old(channels)@,
        data matches Some(d) ==> (r != -1 ==> r == d@.len() && message_queued(
            old(channels)@,
            final(channels)@,
            write_channel(*host),
            host.agent_id,
            tick,
            d@,
        )),
{
    let (cap, chan_id) = match host.channel_write_cap {
        Some(p) => p,
        None => return -1,
    };
    if caps.check(cap, Rights::write(), tick).is_err() {
        return -1;
    }
    let d = match data {
        Some(d) => d,
        None => return -1,
    };
    let msg = Message::new(host.agent_id, d, tick);
    let ghost r0 = *channels;
    proof {
        r0.lemma_wf_ids();
    }
    let sent = match channels.get_mut(chan_id) {
        Some(ch) => ch.send(msg).is_ok(),
        None => false,
    };
    proof {
        if has_channel(r0@, chan_id) {
            let i = choose|i: int| first_channel_with_id(r0@, chan_id, i) && channels@ == r0@.update(i, channels@[i]);
            ChannelRegistry::lemma_update_keeps_wf(&r0, channels, i, channels@[i]);
            if !sent {
                assert(channels@ =~= r0@);
            } else {
                assert(kept_payload(d@) == d@);
                assert(channels@[i]@.drop_last() == r0@[i]@);
                assert(message_queued(r0@, channels@, chan_id, host.agent_id, tick, d@));
            }
            assert forall|k: int| first_channel_with_id(r0@, chan_id, k) implies k == i by {
                if k < i {
                    assert(r0@[k].chan_id() != chan_id);
                } else if k > i {
                    assert(r0@[i].chan_id() != chan_id);
                }
            }
        } else {
            ChannelRegistry::lemma_same_wf(&r0, channels);
        }
    }
    if sent {
        d.len() as i32
    } else {
        -1
    }
}

/// `tc.chan_recv`: with a channel-read capability that passes a READ check
/// now, take the oldest message of the capability's channel and give its
/// first `len` bytes (all of it for a negative `len`) for the agent's
/// memory. `None` when there is nothing to give.
pub fn host_chan_recv(
    caps: &CapTable,
    channels: &mut ChannelRegistry,
    host: &HostState,
    len: i32,
    tick: u64,
) -> (r: Option<Vec<u8>>)
    requires
        old(channels).wf(),
    ensures
        final(channels).wf(),
        final(channels).spec_next_id() == old(channels).spec_next_id(),
        r is Some <==> read_allowed(caps@, *host, tick) && channel_has_message(old(channels)@, read_channel(*host)),
        r is None ==> final(channels)@ == old(channels)@,
        r matches Some(bytes) ==> message_taken(old(channels)@, final(channels)@, read_channel(*host), len, bytes@),
{
    let (cap, chan_id) = match host.channel_read_cap {
        Some(p) => p,
        None => return None,
    };
    if caps.check(cap, Rights::read(), tick).is_err() {
        return None;
    }
    let ghost r0 = *channels;
    proof {
        r0.lemma_wf_ids();
    }
    let got = match channels.get_mut(chan_id) {
        Some(ch) => ch.recv(),
        None => None,
    };
    proof {
        if has_channel(r0@, chan_id) {
            let i = choose|i: int| first_channel_with_id(r0@, chan_id, i) && channels@ == r0@.update(i, channels@[i]);
            ChannelRegistry::lemma_update_keeps_wf(&r0, channels, i, channels@[i]);
            if got is None {
                assert(channels@ =~= r0@);
            }
            assert forall|k: int| first_channel_with_id(r0@, chan_id, k) implies k == i by {
                if k < i {
                    assert(r0@[k].chan_id() != chan_id);
                } else if k > i {
                    assert(r0@[i].chan_id() != chan_id);
                }
            }
        } else {
            ChannelRegistry::lemma_same_wf(&r0, channels);
        }
    }
    match got {
        Some(msg) => {
            let n = if len < 0 || (len as usize) > msg.len {
                msg.len
            } else {
                len as usize
            };
            let p = msg.payload();
            let mut out: Vec<u8> = Vec::new();
            let mut k: usize = 0;
            while k < n
                invariant
                    n <= p@.len(),
                    k <= n,
                    out@ == p@.take(k as int),
                decreases n - k,
            {
                out.push(p[k]);
                proof {
                    assert(p@.take(k + 1) =~= p@.take(k as int).push(p@[k as int]));
                }
                k += 1;
            }
            Some(out)
        },
        None => None,
    }
}

} // verus!

//! Syscall gate: the enforcement layer.
//!
//! Every agent operation goes through this gate. No capability, no access.
//! Flow: agent → syscall → capability check → execute → audit → return.

use crate::agent::{Agent, AgentTable, ResourceBudget, first_with_id, has_id};
use crate::audit::{AuditEvent, AuditLog, audit_recorded};
use crate::cap_table::{
    AgentId, CapEntry, CapError, CapHandle, CapTable, check_outcome, entry_at, new_slot, put_slot,
    revoke_spec, slot_used, table_full,
};
use crate::capability::types::{Rights, RIGHT_READ, RIGHT_WRITE};
use crate::resource::ResourceRef;
use vstd::prelude::*;

verus! {

/// Syscall identifiers
#[derive(Debug, Clone, Copy, PartialEq, Eq, Structural)]
pub enum SyscallId {
    /// Request a new capability (kernel grants only)
    CapRequest,
    /// Delegate capability to another agent
    CapDelegate,
    /// Revoke a capability
    CapRevoke,
    /// Query capability status
    CapQuery,
    /// Spawn a sub-agent
    AgentSpawn,
    /// Kill an agent
    AgentKill,
    /// Get own agent info
    AgentSelf,
    /// Read from a capability-gated resource
    ResourceRead,
    /// Write to a capability-gated resource
    ResourceWrite,
    /// Get system status (read-only)
    SystemStatus,
}

/// The number of each syscall.
pub open spec fn syscall_number(id: SyscallId) -> u16 {
    match id {
        SyscallId::CapRequest => 0x01,
        SyscallId::CapDelegate => 0x02,
        SyscallId::CapRevoke => 0x03,
        SyscallId::CapQuery => 0x04,
        SyscallId::AgentSpawn => 0x10,
        SyscallId::AgentKill => 0x11,
        SyscallId::AgentSelf => 0x12,
        SyscallId::ResourceRead => 0x20,
        SyscallId::ResourceWrite => 0x21,
        SyscallId::SystemStatus => 0x30,
    }
}

impl SyscallId {
    /// The number of this syscall.
    pub fn number(&self) -> (n: u16)
        ensures
            n == syscall_number(*self),
    {
        match self {
            SyscallId::CapRequest => 0x01,
            SyscallId::CapDelegate => 0x02,
            SyscallId::CapRevoke => 0x03,
            SyscallId::CapQuery => 0x04,
            SyscallId::AgentSpawn => 0x10,
            SyscallId::AgentKill => 0x11,
            SyscallId::AgentSelf => 0x12,
            SyscallId::ResourceRead => 0x20,
            SyscallId::ResourceWrite => 0x21,
            SyscallId::SystemStatus => 0x30,
        }
    }
}

/// Syscall error codes
#[derive(Debug, Clone, Copy, PartialEq, Eq, Structural)]
pub enum SyscallError {
    /// Capability check failed
    CapabilityDenied(CapError),
    /// Invalid syscall number
    InvalidSyscall,
    /// Agent not found
    AgentNotFound,
    /// Budget exceeded
    BudgetExceeded,
    /// Resource unavailable
    ResourceUnavailable,
}

/// Result of a syscall
#[derive(Debug, Clone, Copy, PartialEq, Eq, Structural)]
pub enum SyscallResult {
    /// Operation succeeded
    Success,
    /// Operation succeeded, returning a value
    Value(u64),
    /// Operation succeeded, returning a capability handle
    Handle(CapHandle),
    /// Operation failed
    Failure(SyscallError),
}

/// `a` with one more I/O operation counted against its budget.
pub open spec fn with_io_recorded(a: Agent) -> Agent {
    Agent { budget: ResourceBudget { used_io: (a.budget.used_io + 1) as u64, ..a.budget }, ..a }
}

/// `b` is `a` with `h` added to its capability set.
pub open spec fn capability_added(a: Agent, b: Agent, h: CapHandle) -> bool {
    &&& b.capabilities@ == a.capabilities@.push(h)
    &&& b.id == a.id
    &&& b.name == a.name
    &&& b.name_len == a.name_len
    &&& b.state == a.state
    &&& b.budget == a.budget
    &&& b.parent == a.parent
    &&& b.spawn_tick == a.spawn_tick
    &&& b.max_lifetime == a.max_lifetime
}

/// The answer to a capability check, as a syscall result.
pub open spec fn denied_or(c: Result<(), CapError>, ok: SyscallResult) -> SyscallResult {
    match c {
        Ok(()) => ok,
        Err(e) => SyscallResult::Failure(SyscallError::CapabilityDenied(e)),
    }
}

/// The outcome of `agent` using handle `h` for rights `required` at tick
/// `tick`: the capability must pass its check and belong to `agent`, since
/// a handle held by one agent gives another no access.
pub open spec fn access_outcome(
    s: Seq<Option<CapEntry>>,
    h: int,
    agent: AgentId,
    required: u32,
    tick: u64,
) -> Result<(), CapError> {
    match check_outcome(s, h, required, tick) {
        Err(e) => Err(e),
        Ok(()) => if entry_at(s, h).owner != agent {
            Err(CapError::NotOwner)
        } else {
            Ok(())
        },
    }
}

/// Execute a capability-gated resource read by the capability's owner.
/// Every call is audited.
pub fn resource_read(
    caps: &CapTable,
    audit: &mut AuditLog,
    tick: u64,
    agent: AgentId,
    cap_handle: CapHandle,
) -> (r: SyscallResult)
    requires
        old(audit).wf(),
        old(audit).spec_total() < u64::MAX,
    ensures
        r == denied_or(
            access_outcome(caps@, cap_handle.0 as int, agent, RIGHT_READ, tick),
            SyscallResult::Success,
        ),
        audit_recorded(
            *old(audit),
            *final(audit),
            tick,
            agent,
            if r is Success {
                AuditEvent::CapGranted
            } else {
                AuditEvent::CapCheckFail
            },
            cap_handle,
            if r is Success {
                0i32
            } else {
                -1i32
            },
        ),
{
    match caps.check(cap_handle, Rights::read(), tick) {
        Ok(entry) => {
            if entry.owner != agent {
                audit.record(tick, agent, AuditEvent::CapCheckFail, cap_handle, -1);
                return SyscallResult::Failure(SyscallError::CapabilityDenied(CapError::NotOwner));
            }
            audit.record(tick, agent, AuditEvent::CapGranted, cap_handle, 0i32);
            SyscallResult::Success
        },
        Err(e) => {
            audit.record(tick, agent, AuditEvent::CapCheckFail, cap_handle, -1);
            SyscallResult::Failure(SyscallError::CapabilityDenied(e))
        },
    }
}

/// Execute a capability-gated resource write by the capability's owner.
/// Every call is audited. A write by a known agent counts
/// against its I/O budget, and is refused once the budget is spent.
pub fn resource_write(
    caps: &CapTable,
    agents: &mut AgentTable,
    audit: &mut AuditLog,
    tick: u64,
    agent: AgentId,
    cap_handle: CapHandle,
    data: &[u8],
) -> (r: SyscallResult)
    requires
        old(audit).wf(),
        old(audit).spec_total() < u64::MAX,
    ensures
        final(agents).spec_next_id() == old(agents).spec_next_id(),
        access_outcome(caps@, cap_handle.0 as int, agent, RIGHT_WRITE, tick) matches Err(e) ==> {
            &&& r == SyscallResult::Failure(SyscallError::CapabilityDenied(e))
            &&& final(agents)@ == old(agents)@
            &&& audit_recorded(*old(audit), *final(audit), tick, agent, AuditEvent::CapCheckFail, cap_handle, -1i32)
        },
        access_outcome(caps@, cap_handle.0 as int, agent, RIGHT_WRITE, tick) is Ok && !has_id(old(agents)@, agent) ==> {
            &&& r == SyscallResult::Success
            &&& final(agents)@ == old(agents)@
            &&& audit_recorded(*old(audit), *final(audit), tick, agent, AuditEvent::CapGranted, cap_handle, 0i32)
        },
        access_outcome(caps@, cap_handle.0 as int, agent, RIGHT_WRITE, tick) is Ok && has_id(old(agents)@, agent) ==> exists|i: int|
            first_with_id(old(agents)@, agent, i) && if old(agents)@[i].budget.used_io < old(agents)@[i].budget.io_ops {
                &&& r == SyscallResult::Success
                &&& final(agents)@ == old(agents)@.update(i, with_io_recorded(old(agents)@[i]))
                &&& audit_recorded(*old(audit), *final(audit), tick, agent, AuditEvent::CapGranted, cap_handle, 0i32)
            } else {
                &&& r == SyscallResult::Failure(SyscallError::BudgetExceeded)
                &&& final(agents)@ == old(agents)@
                &&& audit_recorded(
                    *old(audit),
                    *final(audit),
                    tick,
                    agent,
                    AuditEvent::AgentOverBudget,
                    cap_handle,
                    -2i32,
                )
            },
{
    match caps.check(cap_handle, Rights::write(), tick) {
        Ok(entry) => {
            if entry.owner != agent {
                audit.record(tick, agent, AuditEvent::CapCheckFail, cap_handle, -1);
                return SyscallResult::Failure(SyscallError::CapabilityDenied(CapError::NotOwner));
            }
            let ghost a0 = agents@;
            match agents.get_mut(agent) {
                Some(agent_ref) => {
                    if !agent_ref.budget.can_io() {
                        proof {
                            assert(agents@ =~= a0);
                        }
                        audit.record(tick, agent, AuditEvent::AgentOverBudget, cap_handle, -2);
                        return SyscallResult::Failure(SyscallError::BudgetExceeded);
                    }
                    agent_ref.budget.record_io();
                },
                None => {},
            }
            audit.record(tick, agent, AuditEvent::CapGranted, cap_handle, 0);
            SyscallResult::Success
        },
        Err(e) => {
            audit.record(tick, agent, AuditEvent::CapCheckFail, cap_handle, -1);
            SyscallResult::Failure(SyscallError::CapabilityDenied(e))
        },
    }
}

/// Grant a capability to an agent (kernel-only). A timeout of 0 means the
/// capability never expires.
pub fn cap_grant(
    caps: &mut CapTable,
    agents: &mut AgentTable,
    audit: &mut AuditLog,
    tick: u64,
    agent: AgentId,
    resource: ResourceRef,
    rights: Rights,
    timeout_ticks: u64,
) -> (r: SyscallResult)
    requires
        old(caps).wf(),
        old(audit).wf(),
        old(audit).spec_total() < u64::MAX,
        timeout_ticks > 0 ==> tick + timeout_ticks <= u64::MAX,
    ensures
        final(caps).wf(),
        final(agents).spec_next_id() == old(agents).spec_next_id(),
        r is Failure <==> table_full(old(caps)@),
        table_full(old(caps)@) ==> {
            &&& r == SyscallResult::Failure(SyscallError::CapabilityDenied(CapError::TableFull))
            &&& final(caps)@ == old(caps)@
            &&& final(agents)@ == old(agents)@
            &&& audit_recorded(*old(audit), *final(audit), tick, agent, AuditEvent::CapCheckFail, CapHandle(0), -1i32)
        },
        r matches SyscallResult::Handle(h) ==> {
            &&& new_slot(old(caps)@, h.0 as int)
            &&& final(caps)@ == put_slot(
                old(caps)@,
                h.0 as int,
                CapEntry {
                    id: entry_at(final(caps)@, h.0 as int).id,
                    resource,
                    rights,
                    owner: agent,
                    parent: None,
                    expires_at: if timeout_ticks > 0 {
                        (tick + timeout_ticks) as u64
                    } else {
                        0
                    },
                    revoked: false,
                    created_at: tick,
                },
            )
            &&& entry_at(final(caps)@, h.0 as int).id@ == old(caps).spec_next_id()
            &&& !has_id(old(agents)@, agent) ==> final(agents)@ == old(agents)@
            &&& has_id(old(agents)@, agent) ==> exists|i: int|
                first_with_id(old(agents)@, agent, i) && final(agents)@ == old(agents)@.update(
                    i,
                    final(agents)@[i],
                ) && capability_added(old(agents)@[i], final(agents)@[i], h)
            &&& audit_recorded(*old(audit), *final(audit), tick, agent, AuditEvent::CapGranted, h, 0i32)
        },
        !table_full(old(caps)@) ==> r is Handle,
{
    let expires = if timeout_ticks > 0 {
        tick + timeout_ticks
    } else {
        0
    };
    match caps.grant(agent, resource, rights, expires, tick) {
        Ok(handle) => {
            match agents.get_mut(agent) {
                Some(a) => {
                    a.add_capability(handle);
                },
                None => {},
            }
            audit.record(tick, agent, AuditEvent::CapGranted, handle, 0);
            SyscallResult::Handle(handle)
        },
        Err(e) => {
            audit.record(tick, agent, AuditEvent::CapCheckFail, CapHandle(0), -1);
            SyscallResult::Failure(SyscallError::CapabilityDenied(e))
        },
    }
}

/// Revoke a capability, with its whole delegation tree. Only the owner may
/// revoke, and only a capability that is still valid; every call is audited.
pub fn cap_revoke(
    caps: &mut CapTable,
    audit: &mut AuditLog,
    tick: u64,
    agent: AgentId,
    cap_handle: CapHandle,
) -> (r: SyscallResult)
    requires
        old(caps).wf(),
        old(audit).wf(),
        old(audit).spec_total() < u64::MAX,
    ensures
        final(caps).wf(),
        check_outcome(old(caps)@, cap_handle.0 as int, 0, tick) matches Err(e) ==> {
            &&& r == SyscallResult::Failure(SyscallError::CapabilityDenied(e))
            &&& final(caps)@ == old(caps)@
            &&& audit_recorded(*old(audit), *final(audit), tick, agent, AuditEvent::CapCheckFail, cap_handle, -1i32)
        },
        check_outcome(old(caps)@, cap_handle.0 as int, 0, tick) is Ok && entry_at(
            old(caps)@,
            cap_handle.0 as int,
        ).owner != agent ==> {
            &&& r == SyscallResult::Failure(SyscallError::CapabilityDenied(CapError::NotOwner))
            &&& final(caps)@ == old(caps)@
            &&& audit_recorded(*old(audit), *final(audit), tick, agent, AuditEvent::CapCheckFail, cap_handle, -1i32)
        },
        check_outcome(old(caps)@, cap_handle.0 as int, 0, tick) is Ok && entry_at(
            old(caps)@,
            cap_handle.0 as int,
        ).owner == agent ==> {
            &&& r == SyscallResult::Success
            &&& final(caps)@ == revoke_spec(old(caps)@, cap_handle.0 as int)
            &&& audit_recorded(*old(audit), *final(audit), tick, agent, AuditEvent::CapRevoked, cap_handle, 0i32)
        },
{
    match caps.check(cap_handle, Rights::empty(), tick) {
        Ok(entry) => {
            if entry.owner != agent {
                audit.record(tick, agent, AuditEvent::CapCheckFail, cap_handle, -1);
                return SyscallResult::Failure(SyscallError::CapabilityDenied(CapError::NotOwner));
            }
        },
        Err(e) => {
            audit.record(tick, agent, AuditEvent::CapCheckFail, cap_handle, -1);
            return SyscallResult::Failure(SyscallError::CapabilityDenied(e));
        },
    }
    match caps.revoke(cap_handle) {
        Ok(()) => {
            audit.record(tick, agent, AuditEvent::CapRevoked, cap_handle, 0);
            SyscallResult::Success
        },
        Err(e) => {
            audit.record(tick, agent, AuditEvent::CapCheckFail, cap_handle, -1);
            SyscallResult::Failure(SyscallError::CapabilityDenied(e))
        },
    }
}

/// Get system status: the current tick.
pub fn system_status(agent: AgentId, tick: u64) -> (r: SyscallResult)
    ensures
        r == SyscallResult::Value(tick),
{
    SyscallResult::Value(tick)
}

} // verus!

use tunicore::agent::{AgentTable, ResourceBudget};
use tunicore::audit::{AuditEvent, AuditLog, AUDIT_GENESIS_HASH};
use tunicore::cap_table::{AgentId, CapError, CapHandle, CapTable, MAX_CAPABILITIES};
use tunicore::capability::Rights;
use tunicore::guardian::result_status;
use tunicore::resource::ResourceRef;
use tunicore::syscall::{
    cap_grant, cap_revoke, resource_read, resource_write, system_status, SyscallError, SyscallId,
    SyscallResult,
};

fn fnv(tick: u64, agent: u32, code: u16, cap: u32, result: i32, prev: u64) -> u64 {
    let mut h: u64 = 0xcbf29ce484222325;
    let mut mix = |bytes: &[u8]| {
        for b in bytes {
            h ^= *b as u64;
            h = h.wrapping_mul(0x100000001b3);
        }
    };
    mix(&tick.to_le_bytes());
    mix(&agent.to_le_bytes());
    mix(&code.to_le_bytes());
    mix(&cap.to_le_bytes());
    mix(&result.to_le_bytes());
    mix(&prev.to_le_bytes());
    h
}

struct Kernel {
    caps: CapTable,
    agents: AgentTable,
    audit: AuditLog,
}

fn kernel() -> Kernel {
    Kernel { caps: CapTable::new(), agents: AgentTable::new(), audit: AuditLog::new() }
}

#[test]
fn syscall_numbers() {
    assert_eq!(SyscallId::CapRequest.number(), 0x01);
    assert_eq!(SyscallId::CapDelegate.number(), 0x02);
    assert_eq!(SyscallId::CapRevoke.number(), 0x03);
    assert_eq!(SyscallId::CapQuery.number(), 0x04);
    assert_eq!(SyscallId::AgentSpawn.number(), 0x10);
    assert_eq!(SyscallId::AgentKill.number(), 0x11);
    assert_eq!(SyscallId::AgentSelf.number(), 0x12);
    assert_eq!(SyscallId::ResourceRead.number(), 0x20);
    assert_eq!(SyscallId::ResourceWrite.number(), 0x21);
    assert_eq!(SyscallId::SystemStatus.number(), 0x30);
}

#[test]
fn grant_adds_handle_to_agent_and_audits() {
    let mut k = kernel();
    let id = k.agents.spawn("guardian", None, ResourceBudget::default_budget(), 0, 0).unwrap();
    let r = cap_grant(&mut k.caps, &mut k.agents, &mut k.audit, 10, id, ResourceRef::Serial, Rights::read(), 0);
    assert_eq!(r, SyscallResult::Handle(CapHandle(0)));
    assert_eq!(k.agents.get(id).unwrap().capabilities, vec![CapHandle(0)]);
    assert_eq!(k.audit.total_events(), 1);
    assert_eq!(k.audit.last_hash(), fnv(10, id.0, 0x01, 0, 0, AUDIT_GENESIS_HASH));
    let timed =
        cap_grant(&mut k.caps, &mut k.agents, &mut k.audit, 10, id, ResourceRef::AuditLog, Rights::read(), 6000);
    assert_eq!(timed, SyscallResult::Handle(CapHandle(1)));
    assert_eq!(k.caps.check(CapHandle(1), Rights::read(), 6009).unwrap().expires_at, 6010);
}

#[test]
fn no_capability_no_access() {
    let mut k = kernel();
    let id = AgentId(1);
    let r = resource_read(&k.caps, &mut k.audit, 5, id, CapHandle(3));
    assert_eq!(r, SyscallResult::Failure(SyscallError::CapabilityDenied(CapError::InvalidHandle)));
    assert_eq!(k.audit.last_hash(), fnv(5, 1, 0x05, 3, -1, AUDIT_GENESIS_HASH));
    let h = match cap_grant(&mut k.caps, &mut k.agents, &mut k.audit, 5, id, ResourceRef::Memory { base: 0, length: 4096 }, Rights::read(), 0) {
        SyscallResult::Handle(h) => h,
        other => panic!("grant failed: {:?}", other),
    };
    assert_eq!(resource_read(&k.caps, &mut k.audit, 6, id, h), SyscallResult::Success);
    assert_eq!(
        resource_write(&k.caps, &mut k.agents, &mut k.audit, 6, id, h, b"x"),
        SyscallResult::Failure(SyscallError::CapabilityDenied(CapError::InsufficientRights))
    );
    assert_eq!(k.audit.total_events(), 4);
}

#[test]
fn writes_count_against_io_budget() {
    let mut k = kernel();
    let mut budget = ResourceBudget::default_budget();
    budget.io_ops = 1;
    let id = k.agents.spawn("w", None, budget, 0, 0).unwrap();
    let h = match cap_grant(&mut k.caps, &mut k.agents, &mut k.audit, 0, id, ResourceRef::Serial, Rights::write(), 0) {
        SyscallResult::Handle(h) => h,
        other => panic!("grant failed: {:?}", other),
    };
    assert_eq!(resource_write(&k.caps, &mut k.agents, &mut k.audit, 1, id, h, b"a"), SyscallResult::Success);
    assert_eq!(k.agents.get(id).unwrap().budget.used_io, 1);
    let before = k.audit.last_hash();
    assert_eq!(
        resource_write(&k.caps, &mut k.agents, &mut k.audit, 2, id, h, b"b"),
        SyscallResult::Failure(SyscallError::BudgetExceeded)
    );
    assert_eq!(k.audit.last_hash(), fnv(2, id.0, AuditEvent::AgentOverBudget.code(), h.0, -2, before));
    assert_eq!(k.agents.get(id).unwrap().budget.used_io, 1);
}

#[test]
fn write_by_unknown_agent_is_not_budgeted() {
    let mut k = kernel();
    let h = k.caps.grant(AgentId(77), ResourceRef::Serial, Rights::write(), 0, 0).unwrap();
    assert_eq!(
        resource_write(&k.caps, &mut k.agents, &mut k.audit, 1, AgentId(77), h, b"a"),
        SyscallResult::Success
    );
}

#[test]
fn only_the_owner_revokes() {
    let mut k = kernel();
    let h = k.caps.grant(AgentId(1), ResourceRef::Serial, Rights::read(), 0, 0).unwrap();
    assert_eq!(
        cap_revoke(&mut k.caps, &mut k.audit, 1, AgentId(2), h),
        SyscallResult::Failure(SyscallError::CapabilityDenied(CapError::NotOwner))
    );
    assert_eq!(k.audit.total_events(), 1);
    assert_eq!(k.audit.last_hash(), fnv(1, 2, AuditEvent::CapCheckFail.code(), h.0, -1, AUDIT_GENESIS_HASH));
    assert!(k.caps.check(h, Rights::read(), 1).is_ok());
    let before = k.audit.last_hash();
    assert_eq!(cap_revoke(&mut k.caps, &mut k.audit, 1, AgentId(1), h), SyscallResult::Success);
    assert_eq!(k.audit.total_events(), 2);
    assert_eq!(k.audit.last_hash(), fnv(1, 1, AuditEvent::CapRevoked.code(), h.0, 0, before));
    let before = k.audit.last_hash();
    assert_eq!(
        cap_revoke(&mut k.caps, &mut k.audit, 1, AgentId(1), h),
        SyscallResult::Failure(SyscallError::CapabilityDenied(CapError::Revoked))
    );
    assert_eq!(k.audit.total_events(), 3);
    assert_eq!(k.audit.last_hash(), fnv(1, 1, AuditEvent::CapCheckFail.code(), h.0, -1, before));
    assert_eq!(
        cap_revoke(&mut k.caps, &mut k.audit, 2, AgentId(1), CapHandle(900)),
        SyscallResult::Failure(SyscallError::CapabilityDenied(CapError::InvalidHandle))
    );
    assert_eq!(k.audit.total_events(), 4);
}

#[test]
fn a_handle_gives_no_access_to_another_agent() {
    let mut k = kernel();
    let owner = AgentId(1);
    let h = match cap_grant(&mut k.caps, &mut k.agents, &mut k.audit, 0, owner, ResourceRef::Serial, Rights::read().union(Rights::write()), 0) {
        SyscallResult::Handle(h) => h,
        other => panic!("grant failed: {:?}", other),
    };
    assert_eq!(h, CapHandle(0));
    let before = k.audit.last_hash();
    assert_eq!(
        resource_read(&k.caps, &mut k.audit, 3, AgentId(2), h),
        SyscallResult::Failure(SyscallError::CapabilityDenied(CapError::NotOwner))
    );
    assert_eq!(k.audit.total_events(), 2);
    assert_eq!(k.audit.last_hash(), fnv(3, 2, AuditEvent::CapCheckFail.code(), h.0, -1, before));
    let before = k.audit.last_hash();
    assert_eq!(
        resource_write(&k.caps, &mut k.agents, &mut k.audit, 4, AgentId(2), h, b"x"),
        SyscallResult::Failure(SyscallError::CapabilityDenied(CapError::NotOwner))
    );
    assert_eq!(k.audit.last_hash(), fnv(4, 2, AuditEvent::CapCheckFail.code(), h.0, -1, before));
    assert_eq!(resource_read(&k.caps, &mut k.audit, 5, owner, h), SyscallResult::Success);
    assert_eq!(resource_write(&k.caps, &mut k.agents, &mut k.audit, 5, owner, h, b"x"), SyscallResult::Success);
    assert_eq!(k.audit.total_events(), 5);
}

#[test]
fn grant_into_full_table_fails() {
    let mut k = kernel();
    for _ in 0..MAX_CAPABILITIES {
        k.caps.grant(AgentId(1), ResourceRef::Serial, Rights::read(), 0, 0).unwrap();
    }
    let r = cap_grant(&mut k.caps, &mut k.agents, &mut k.audit, 3, AgentId(1), ResourceRef::Serial, Rights::read(), 0);
    assert_eq!(r, SyscallResult::Failure(SyscallError::CapabilityDenied(CapError::TableFull)));
    assert_eq!(k.audit.last_hash(), fnv(3, 1, 0x05, 0, -1, AUDIT_GENESIS_HASH));
}

#[test]
fn status_and_result_labels() {
    assert_eq!(system_status(AgentId(1), 42), SyscallResult::Value(42));
    assert_eq!(result_status(&SyscallResult::Success), "OK ok");
    assert_eq!(result_status(&SyscallResult::Value(1)), "OK ok");
    assert_eq!(result_status(&SyscallResult::Handle(CapHandle(1))), "OK ok");
    assert_eq!(result_status(&SyscallResult::Failure(SyscallError::InvalidSyscall)), "DENIED FAIL");
    let other = [SyscallError::AgentNotFound, SyscallError::ResourceUnavailable];
    assert_ne!(other[0], other[1]);
}

use tunicore::cap_table::{AgentId, CapError, CapHandle, CapTable, MAX_CAPABILITIES};
use tunicore::capability::types::CapIdCounter;
use tunicore::capability::{CapMemory, Capability, Rights};
use tunicore::resource::{DeviceId, ResourceRef};

fn rw() -> Rights {
    Rights::read().union(Rights::write())
}

#[test]
fn rights_bits_and_containment() {
    assert_eq!(Rights::read().bits(), 0x01);
    assert_eq!(Rights::write().bits(), 0x02);
    assert_eq!(Rights::execute().bits(), 0x04);
    assert_eq!(Rights::grant().bits(), 0x08);
    assert_eq!(Rights::create().bits(), 0x10);
    assert_eq!(Rights::delete().bits(), 0x20);
    assert_eq!(Rights::all().bits(), 0x3F);
    assert_eq!(Rights::empty().bits(), 0);
    assert_eq!(Rights::from_bits_truncate(0xFFFF_FFC1).bits(), 0x01);
    assert!(rw().contains(Rights::read()));
    assert!(!Rights::read().contains(rw()));
    assert!(Rights::read().contains(Rights::empty()));
}

#[test]
fn capability_ids_are_unique_and_increasing() {
    let mut ids = CapIdCounter::new();
    let a: Capability<CapMemory> = Capability::new(rw(), &mut ids);
    let b: Capability<CapMemory> = Capability::new(Rights::read(), &mut ids);
    assert_eq!(a.id().as_u64(), 1);
    assert_eq!(b.id().as_u64(), 2);
    assert!(a.has_right(Rights::write()));
    assert!(!b.has_right(Rights::write()));
}

#[test]
fn attenuation_never_escalates() {
    let mut ids = CapIdCounter::new();
    let parent: Capability<CapMemory> = Capability::new(Rights::read(), &mut ids);
    assert!(parent.attenuate(rw(), &mut ids).is_none());
    let child = parent.attenuate(Rights::read(), &mut ids).unwrap();
    assert_eq!(child.rights().bits(), Rights::read().bits());
    assert_ne!(child.id().as_u64(), parent.id().as_u64());
}

#[test]
fn grant_then_check_succeeds() {
    let mut t = CapTable::new();
    let h = t.grant(AgentId(1), ResourceRef::Serial, rw(), 0, 5).unwrap();
    assert_eq!(h, CapHandle(0));
    let e = t.check(h, Rights::read(), 10).unwrap();
    assert_eq!(e.owner, AgentId(1));
    assert_eq!(e.created_at, 5);
    assert_eq!(t.active_count(), 1);
}

#[test]
fn check_errors() {
    let mut t = CapTable::new();
    assert_eq!(t.check(CapHandle(7), Rights::read(), 0).err(), Some(CapError::InvalidHandle));
    assert_eq!(t.check(CapHandle(5000), Rights::read(), 0).err(), Some(CapError::InvalidHandle));
    let h = t.grant(AgentId(1), ResourceRef::AuditLog, Rights::read(), 100, 0).unwrap();
    assert_eq!(t.check(h, Rights::write(), 10).err(), Some(CapError::InsufficientRights));
    assert_eq!(t.check(h, Rights::read(), 100).err(), Some(CapError::Expired));
    assert!(t.check(h, Rights::read(), 99).is_ok());
    t.revoke(h).unwrap();
    assert_eq!(t.check(h, Rights::read(), 10).err(), Some(CapError::Revoked));
    assert_eq!(t.revoke(CapHandle(9)).err(), Some(CapError::InvalidHandle));
}

#[test]
fn delegation_attenuates_and_cascades() {
    let mut t = CapTable::new();
    let parent = t.grant(AgentId(1), ResourceRef::Serial, rw(), 0, 0).unwrap();
    assert_eq!(
        t.delegate(parent, AgentId(99), Rights::all(), 1).err(),
        Some(CapError::EscalationDenied)
    );
    assert_eq!(t.active_count(), 1);
    let child = t.delegate(parent, AgentId(99), Rights::read(), 1).unwrap();
    let grandchild = t.delegate(child, AgentId(100), Rights::read(), 2).unwrap();
    assert_eq!(t.check(child, Rights::read(), 3).unwrap().owner, AgentId(99));
    assert_eq!(t.active_count(), 3);
    t.revoke(parent).unwrap();
    assert_eq!(t.check(child, Rights::read(), 3).err(), Some(CapError::Revoked));
    assert_eq!(t.check(grandchild, Rights::read(), 3).err(), Some(CapError::Revoked));
    assert_eq!(t.active_count(), 0);
}

#[test]
fn delegation_from_revoked_parent_is_refused() {
    let mut t = CapTable::new();
    let parent = t.grant(AgentId(1), ResourceRef::Serial, rw(), 0, 0).unwrap();
    t.revoke(parent).unwrap();
    assert_eq!(
        t.delegate(parent, AgentId(2), Rights::read(), 1).err(),
        Some(CapError::Revoked)
    );
}

#[test]
fn revoke_all_for_agent_revokes_only_its_caps() {
    let mut t = CapTable::new();
    let a = t.grant(AgentId(1), ResourceRef::Serial, rw(), 0, 0).unwrap();
    let b = t.grant(AgentId(2), ResourceRef::AuditLog, Rights::read(), 0, 0).unwrap();
    t.revoke_all_for_agent(AgentId(1));
    assert_eq!(t.check(a, Rights::read(), 0).err(), Some(CapError::Revoked));
    assert!(t.check(b, Rights::read(), 0).is_ok());
    assert_eq!(t.active_count(), 1);
}

#[test]
fn gc_revokes_expired_caps() {
    let mut t = CapTable::new();
    let a = t.grant(AgentId(1), ResourceRef::Serial, rw(), 50, 0).unwrap();
    let b = t.grant(AgentId(1), ResourceRef::Serial, rw(), 0, 0).unwrap();
    t.gc_expired(49);
    assert_eq!(t.active_count(), 2);
    t.gc_expired(50);
    assert_eq!(t.check(a, Rights::read(), 0).err(), Some(CapError::Revoked));
    assert!(t.check(b, Rights::read(), 1000).is_ok());
    assert_eq!(t.active_count(), 1);
}

#[test]
fn table_full_is_reported() {
    let mut t = CapTable::new();
    for i in 0..MAX_CAPABILITIES {
        let h = t
            .grant(AgentId(1), ResourceRef::Compute { device: DeviceId(0), slot: 0 }, Rights::read(), 0, 0)
            .unwrap();
        assert_eq!(h.0 as usize, i);
    }
    assert_eq!(
        t.grant(AgentId(1), ResourceRef::Serial, Rights::read(), 0, 0).err(),
        Some(CapError::TableFull)
    );
}

#[test]
fn escalating_delegation_is_denied() {
    let mut t = CapTable::new();
    let h = t.grant(AgentId(1), ResourceRef::Serial, Rights::read(), 0, 0).unwrap();
    assert_eq!(h, CapHandle(0));
    assert_eq!(t.delegate(h, AgentId(2), rw(), 0).err(), Some(CapError::EscalationDenied));
    assert_eq!(t.active_count(), 1);
    let child = t.delegate(h, AgentId(2), Rights::read(), 0).unwrap();
    assert_eq!(child, CapHandle(1));
    let e = t.check(child, Rights::read(), 0).unwrap();
    assert_eq!(e.parent, Some(CapHandle(0)));
    assert_eq!(e.owner, AgentId(2));
    assert_eq!(e.expires_at, 0);
    // The parent's state is reported before any escalation.
    assert_eq!(t.delegate(CapHandle(77), AgentId(2), rw(), 0).err(), Some(CapError::InvalidHandle));
    t.revoke(h).unwrap();
    assert_eq!(t.delegate(h, AgentId(2), rw(), 0).err(), Some(CapError::Revoked));
}

#[test]
fn revoked_capabilities_free_room_for_new_grants() {
    let mut t = CapTable::new();
    for i in 0..MAX_CAPABILITIES {
        let h = t.grant(AgentId(1), ResourceRef::Serial, Rights::read(), 0, 0).unwrap();
        assert_eq!(h.0 as usize, i);
    }
    assert_eq!(
        t.grant(AgentId(1), ResourceRef::Serial, Rights::read(), 0, 0).err(),
        Some(CapError::TableFull)
    );
    assert_eq!(
        t.delegate(CapHandle(0), AgentId(2), Rights::read(), 0).err(),
        Some(CapError::TableFull)
    );
    t.revoke(CapHandle(3)).unwrap();
    assert_eq!(t.active_count(), MAX_CAPABILITIES - 1);
    // A revoked handle keeps reporting `Revoked`; the new capability gets a new slot.
    let h = t.grant(AgentId(2), ResourceRef::AuditLog, Rights::read(), 0, 7).unwrap();
    assert_eq!(h, CapHandle(MAX_CAPABILITIES as u32));
    assert_eq!(t.active_count(), MAX_CAPABILITIES);
    assert_eq!(t.check(CapHandle(3), Rights::read(), 0).err(), Some(CapError::Revoked));
    let e = t.check(h, Rights::read(), 7).unwrap();
    assert_eq!(e.owner, AgentId(2));
    assert_eq!(e.created_at, 7);
    assert_eq!(e.id.as_u64(), MAX_CAPABILITIES as u64 + 1);
    assert_eq!(
        t.grant(AgentId(1), ResourceRef::Serial, Rights::read(), 0, 0).err(),
        Some(CapError::TableFull)
    );
}

#[test]
fn resource_descriptions() {
    assert_eq!(ResourceRef::Memory { base: 0, length: 4096 }.describe(), "memory");
    assert_eq!(ResourceRef::IoPort { base: 0x3F8, count: 8 }.describe(), "io_port");
    assert_eq!(ResourceRef::Compute { device: DeviceId(0), slot: 1 }.describe(), "compute");
    assert_eq!(ResourceRef::Serial.describe(), "serial");
    assert_eq!(ResourceRef::Display { x: 0, y: 0, width: 1, height: 1 }.describe(), "display");
    assert_eq!(ResourceRef::Channel { channel_id: 3 }.describe(), "channel");
    assert_eq!(ResourceRef::AuditLog.describe(), "audit_log");
}

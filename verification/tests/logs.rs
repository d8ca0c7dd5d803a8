use tunicore::audit::{log_boot, AuditEvent, AuditLog, AUDIT_GENESIS_HASH, AUDIT_RING_SIZE};
use tunicore::cap_table::{AgentId, CapHandle};
use tunicore::klog::{self, Klog, LogLevel, LOG_SIZE, MSG_LEN};

fn fnv(tick: u64, agent: u32, code: u16, cap: u32, result: i32, prev: u64) -> u64 {
    let mut h: u64 = 0xcbf29ce484222325;
    let mut mix = |bytes: &[u8]| {
        for b in bytes {
            h ^= *b as u64;
            h = h.wrapping_mul(0x100000001b3);
        }
    };
    mix(&tick.to_le_bytes());
    mix(&agent.to_le_bytes());
    mix(&code.to_le_bytes());
    mix(&cap.to_le_bytes());
    mix(&result.to_le_bytes());
    mix(&prev.to_le_bytes());
    h
}

#[test]
fn event_codes() {
    assert_eq!(AuditEvent::CapGranted.code(), 0x01);
    assert_eq!(AuditEvent::CapRevoked.code(), 0x02);
    assert_eq!(AuditEvent::CapDelegated.code(), 0x03);
    assert_eq!(AuditEvent::CapCheckFail.code(), 0x05);
    assert_eq!(AuditEvent::CapExpired.code(), 0x06);
    assert_eq!(AuditEvent::AgentSpawned.code(), 0x10);
    assert_eq!(AuditEvent::AgentKilled.code(), 0x11);
    assert_eq!(AuditEvent::AgentTimeout.code(), 0x12);
    assert_eq!(AuditEvent::AgentOverBudget.code(), 0x13);
    assert_eq!(AuditEvent::EscalationAttempt.code(), 0x100);
    assert_eq!(AuditEvent::KernelBoot.code(), 0x1000);
}

#[test]
fn audit_hash_chain() {
    let mut log = AuditLog::new();
    assert_eq!(log.total_events(), 0);
    assert_eq!(log.last_hash(), AUDIT_GENESIS_HASH);
    log_boot(&mut log, 3);
    let h1 = fnv(3, 0, 0x1000, 0, 0, AUDIT_GENESIS_HASH);
    assert_eq!(log.last_hash(), h1);
    log.record(9, AgentId(2), AuditEvent::CapGranted, CapHandle(5), 0);
    let h2 = fnv(9, 2, 0x01, 5, 0, h1);
    assert_eq!(log.last_hash(), h2);
    assert_eq!(log.total_events(), 2);
}

#[test]
fn audit_hash_covers_handle_and_result() {
    let mut a = AuditLog::new();
    let mut b = AuditLog::new();
    a.record(0, AgentId(1), AuditEvent::CapGranted, CapHandle(0), 0);
    b.record(0, AgentId(1), AuditEvent::CapGranted, CapHandle(5), -1);
    assert_ne!(a.last_hash(), b.last_hash());
    assert_eq!(b.last_hash(), fnv(0, 1, 0x01, 5, -1, AUDIT_GENESIS_HASH));
    assert_eq!(a.total_events(), b.total_events());
}

#[test]
fn audit_ring_keeps_counting() {
    let mut log = AuditLog::new();
    for i in 0..(AUDIT_RING_SIZE as u64 + 5) {
        log.record(i, AgentId(1), AuditEvent::CapCheckFail, CapHandle(0), -1);
    }
    assert_eq!(log.total_events(), AUDIT_RING_SIZE as u64 + 5);
}

#[test]
fn klog_tags() {
    assert_eq!(LogLevel::Boot.tag(), "BOOT");
    assert_eq!(LogLevel::Info.tag(), "INFO");
    assert_eq!(LogLevel::Warn.tag(), "WARN");
    assert_eq!(LogLevel::Agent.tag(), "AGNT");
    assert_eq!(LogLevel::Error.tag(), "ERR!");
}

#[test]
fn klog_recent_is_newest_first() {
    let mut k = Klog::new();
    klog::boot(&mut k, "first", 1);
    klog::info(&mut k, "second", 2);
    klog::warn(&mut k, "third", 3);
    klog::agent(&mut k, "fourth", 4);
    klog::error(&mut k, "fifth", 5);
    klog::log(&mut k, LogLevel::Info, "sixth", 6);
    assert_eq!(k.total(), 6);
    let r = k.recent(3);
    assert_eq!(r.len(), 3);
    assert_eq!(r[0].message(), "sixth");
    assert_eq!(r[1].message(), "fifth");
    assert_eq!(r[1].level, LogLevel::Error);
    assert_eq!(r[2].message(), "fourth");
    assert_eq!(r[2].tick, 4);
    assert_eq!(k.recent(100).len(), 6);
}

#[test]
fn klog_ring_and_truncation() {
    let mut k = Klog::new();
    let long = "m".repeat(MSG_LEN + 10);
    k.log(LogLevel::Info, &long, 0);
    assert_eq!(k.recent(1)[0].message(), &long[..MSG_LEN]);
    for i in 0..LOG_SIZE as u64 {
        k.log(LogLevel::Info, "x", i + 1);
    }
    assert_eq!(k.total(), LOG_SIZE as u64 + 1);
    let all = k.recent(LOG_SIZE + 1);
    assert_eq!(all.len(), LOG_SIZE);
    assert_eq!(all[LOG_SIZE - 1].tick, 1);
}

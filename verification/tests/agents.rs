use tunicore::agent::{Agent, AgentIdCounter, AgentState, AgentTable, ResourceBudget, MAX_AGENTS};
use tunicore::cap_table::{AgentId, CapError, CapHandle, CapTable};
use tunicore::capability::Rights;
use tunicore::resource::ResourceRef;

#[test]
fn default_budget_values() {
    let b = ResourceBudget::default_budget();
    assert_eq!(b.memory_bytes, 16 * 1024 * 1024);
    assert_eq!(b.compute_ticks, 1_000_000);
    assert_eq!(b.io_ops, 10_000);
    assert_eq!(b.max_children, 4);
    assert_eq!(b.used_memory + b.used_compute + b.used_io, 0);
    assert_eq!(b.current_children, 0);
}

#[test]
fn budget_checks_and_records() {
    let mut b = ResourceBudget::default_budget();
    assert!(b.can_allocate(16 * 1024 * 1024));
    assert!(!b.can_allocate(16 * 1024 * 1024 + 1));
    b.record_memory(1024);
    assert_eq!(b.used_memory, 1024);
    assert!(!b.can_allocate(16 * 1024 * 1024));
    assert!(b.can_io());
    b.io_ops = 2;
    b.record_io();
    b.record_io();
    assert_eq!(b.used_io, 2);
    assert!(!b.can_io());
    assert!(b.can_spawn_child());
    b.current_children = 4;
    assert!(!b.can_spawn_child());
    b.record_compute(7);
    assert_eq!(b.used_compute, 7);
}

#[test]
fn agent_new_truncates_name_and_takes_ids() {
    let mut ids = AgentIdCounter::new();
    let long = "x".repeat(100);
    let a = Agent::new(&long, None, ResourceBudget::default_budget(), 0, 3, &mut ids);
    assert_eq!(a.id, AgentId(1));
    assert_eq!(a.name_len, 63);
    assert_eq!(a.name_str(), &long[..63]);
    let b = Agent::new("guardian", Some(a.id), ResourceBudget::default_budget(), 10, 3, &mut ids);
    assert_eq!(b.id, AgentId(2));
    assert_eq!(b.name_str(), "guardian");
    assert_eq!(b.parent, Some(AgentId(1)));
    assert_eq!(b.state, AgentState::Initializing);
    assert!(!b.is_expired(12));
    assert!(b.is_expired(13));
    assert!(!a.is_expired(u64::MAX));
}

#[test]
fn over_budget_when_compute_is_spent() {
    let mut ids = AgentIdCounter::new();
    let mut a = Agent::new("a", None, ResourceBudget::default_budget(), 0, 0, &mut ids);
    assert!(!a.is_over_budget());
    a.budget.record_compute(1_000_000);
    assert!(a.is_over_budget());
}

#[test]
fn spawn_get_and_kill() {
    let mut t = AgentTable::new();
    let mut caps = CapTable::new();
    let id = t.spawn("worker", None, ResourceBudget::default_budget(), 0, 5).unwrap();
    assert_eq!(id, AgentId(1));
    let c = caps.grant(id, ResourceRef::Serial, Rights::read(), 0, 5).unwrap();
    t.get_mut(id).unwrap().add_capability(c);
    t.get_mut(id).unwrap().set_state(AgentState::Active);
    assert_eq!(t.get(id).unwrap().capabilities, vec![c]);
    assert_eq!(t.active_count(), 1);
    assert!(t.kill(id, &mut caps).is_ok());
    assert_eq!(t.get(id).unwrap().state, AgentState::Terminated);
    assert_eq!(caps.check(c, Rights::read(), 6).err(), Some(CapError::Revoked));
    assert_eq!(t.active_count(), 0);
    assert_eq!(t.kill(AgentId(42), &mut caps), Err("agent not found"));
    assert!(t.get(AgentId(42)).is_none());
}

#[test]
fn gc_drops_terminated_agents() {
    let mut t = AgentTable::new();
    let mut caps = CapTable::new();
    let a = t.spawn("a", None, ResourceBudget::default_budget(), 0, 0).unwrap();
    let b = t.spawn("b", None, ResourceBudget::default_budget(), 0, 0).unwrap();
    t.kill(a, &mut caps).unwrap();
    t.gc();
    assert!(t.get(a).is_none());
    assert!(t.get(b).is_some());
    assert_eq!(t.active_count(), 1);
}

#[test]
fn spawn_fails_when_table_full() {
    let mut t = AgentTable::new();
    for _ in 0..MAX_AGENTS {
        t.spawn("a", None, ResourceBudget::default_budget(), 0, 0).unwrap();
    }
    assert_eq!(
        t.spawn("b", None, ResourceBudget::default_budget(), 0, 0),
        Err("max agents reached")
    );
}

#[test]
fn timeouts_terminate_and_revoke() {
    let mut t = AgentTable::new();
    let mut caps = CapTable::new();
    let short = t.spawn("short", None, ResourceBudget::default_budget(), 10, 0).unwrap();
    let forever = t.spawn("forever", None, ResourceBudget::default_budget(), 0, 0).unwrap();
    let c1 = caps.grant(short, ResourceRef::Serial, Rights::read(), 0, 0).unwrap();
    let c2 = caps.grant(forever, ResourceRef::Serial, Rights::read(), 0, 0).unwrap();
    t.get_mut(short).unwrap().set_state(AgentState::Active);
    t.enforce_timeouts(9, &mut caps);
    assert_eq!(t.get(short).unwrap().state, AgentState::Active);
    t.enforce_timeouts(10, &mut caps);
    assert_eq!(t.get(short).unwrap().state, AgentState::Terminated);
    assert_eq!(t.get(forever).unwrap().state, AgentState::Initializing);
    assert_eq!(caps.check(c1, Rights::read(), 10).err(), Some(CapError::Revoked));
    assert!(caps.check(c2, Rights::read(), 10).is_ok());
    assert_eq!(CapHandle(1), c2);
}

#[test]
fn budget_and_lifetime_checks_at_the_limits() {
    let mut b = ResourceBudget::default_budget();
    b.used_memory = 10;
    assert!(!b.can_allocate(u64::MAX));
    b.used_memory = b.memory_bytes + 1;
    assert!(!b.can_allocate(0));
    let mut ids = AgentIdCounter::new();
    let a = Agent::new("late", None, ResourceBudget::default_budget(), u64::MAX, u64::MAX - 5, &mut ids);
    assert!(!a.is_expired(u64::MAX));
    assert!(!a.is_expired(0));
    let b2 = Agent::new("short", None, ResourceBudget::default_budget(), 5, u64::MAX - 5, &mut ids);
    assert!(b2.is_expired(u64::MAX));
    assert!(!b2.is_expired(u64::MAX - 1));
}

#[test]
fn active_count_follows_spawn_and_kill() {
    let mut t = AgentTable::new();
    let mut caps = CapTable::new();
    assert_eq!(t.active_count(), 0);
    let a = t.spawn("a", None, ResourceBudget::default_budget(), 0, 0).unwrap();
    assert_eq!(t.active_count(), 1);
    let b = t.spawn("b", None, ResourceBudget::default_budget(), 0, 0).unwrap();
    assert_eq!(t.active_count(), 2);
    t.kill(a, &mut caps).unwrap();
    assert_eq!(t.active_count(), 1);
    t.kill(a, &mut caps).unwrap();
    assert_eq!(t.active_count(), 1);
    t.kill(b, &mut caps).unwrap();
    assert_eq!(t.active_count(), 0);
}

//! Agent lifecycle management.
//!
//! An agent is the fundamental execution unit. Unlike Unix processes, agents are
//! - capability-gated from birth (zero privileges by default),
//! - budget-limited (max memory, compute ticks, I/O ops),
//! - time-limited (max lifetime, killed on expiry).

use crate::cap_table::{
    ignores_revoked, lemma_revoke_where_compose, lemma_revoke_where_nothing, lemma_revoke_where_same_pred,
    revoke_where_spec, with_revoked, AgentId, CapEntry, CapHandle, CapTable,
};
use crate::text::{decode_or, utf8_or};
use vstd::prelude::*;
use vstd::seq_lib::lemma_seq_contains_after_push;
use vstd::string::StringSliceAdditionalSpecFns;

verus! {

/// Maximum number of concurrent agents
pub const MAX_AGENTS: usize = 256;

/// Length of an agent's name buffer.
pub const NAME_CAP: usize = 64;

/// Agent execution state
#[derive(Debug, Clone, Copy, PartialEq, Eq, Structural)]
pub enum AgentState {
    /// Being initialized, loading code
    Initializing,
    /// Running and consuming resources
    Active,
    /// Waiting for I/O, compute result, or channel message
    Blocked,
    /// Paused (can be resumed, resources held)
    Suspended,
    /// Terminated (cleanup pending, caps being revoked)
    Terminated,
}

/// Hard limits on what an agent can consume
#[derive(Debug, Clone, Copy, PartialEq, Eq, Structural)]
pub struct ResourceBudget {
    /// Maximum heap bytes this agent may allocate
    pub memory_bytes: u64,
    /// Maximum CPU ticks this agent may use
    pub compute_ticks: u64,
    /// Maximum I/O operations this agent may perform
    pub io_ops: u64,
    /// Maximum number of sub-agents this agent may spawn
    pub max_children: u16,
    /// Currently used memory
    pub used_memory: u64,
    /// Currently used compute ticks
    pub used_compute: u64,
    /// Currently used I/O ops
    pub used_io: u64,
    /// Current number of children
    pub current_children: u16,
}

/// The default budget: 16 MiB, 1 000 000 ticks, 10 000 I/O ops, 4 children,
/// nothing used yet.
pub open spec fn default_budget_spec() -> ResourceBudget {
    ResourceBudget {
        memory_bytes: 16777216u64,
        compute_ticks: 1_000_000,
        io_ops: 10_000,
        max_children: 4,
        used_memory: 0,
        used_compute: 0,
        used_io: 0,
        current_children: 0,
    }
}

impl ResourceBudget {
    /// Create a default budget: 16 MiB, 1 000 000 ticks, 10 000 I/O ops, 4 children.
    pub fn default_budget() -> (b: Self)
        ensures
            b == default_budget_spec(),
    {
        Self {
            memory_bytes: 16 * 1024 * 1024,
            compute_ticks: 1_000_000,
            io_ops: 10_000,
            max_children: 4,
            used_memory: 0,
            used_compute: 0,
            used_io: 0,
            current_children: 0,
        }
    }

    /// Check if memory allocation is within budget
    pub fn can_allocate(&self, bytes: u64) -> (b: bool)
        ensures
            b == (self.used_memory + bytes <= self.memory_bytes),
    {
        self.used_memory <= self.memory_bytes && bytes <= self.memory_bytes - self.used_memory
    }

    /// Check if an I/O operation is within budget
    pub fn can_io(&self) -> (b: bool)
        ensures
            b == (self.used_io < self.io_ops),
    {
        self.used_io < self.io_ops
    }

    /// Check if a child spawn is within budget
    pub fn can_spawn_child(&self) -> (b: bool)
        ensures
            b == (self.current_children < self.max_children),
    {
        self.current_children < self.max_children
    }

    /// Record memory usage
    pub fn record_memory(&mut self, bytes: u64)
        requires
            old(self).used_memory + bytes <= u64::MAX,
        ensures
            *final(self) == (ResourceBudget { used_memory: (old(self).used_memory + bytes) as u64, ..*old(self) }),
    {
        self.used_memory += bytes;
    }

    /// Record I/O usage
    pub fn record_io(&mut self)
        requires
            old(self).used_io < u64::MAX,
        ensures
            *final(self) == (ResourceBudget { used_io: (old(self).used_io + 1) as u64, ..*old(self) }),
    {
        self.used_io += 1;
    }

    /// Record compute usage
    pub fn record_compute(&mut self, ticks: u64)
        requires
            old(self).used_compute + ticks <= u64::MAX,
        ensures
            *final(self) == (ResourceBudget { used_compute: (old(self).used_compute + ticks) as u64, ..*old(self) }),
    {
        self.used_compute += ticks;
    }
}

/// Under a budget an I/O operation is allowed exactly until `io_ops` have been recorded.
pub proof fn lemma_io_budget_exhausts(b: ResourceBudget)
    requires
        b.used_io < u64::MAX,
    ensures
        (ResourceBudget { used_io: (b.used_io + 1) as u64, ..b }).used_io < b.io_ops <==> b.used_io + 1 < b.io_ops,
{
}

/// The value that follows `n` on a 32-bit counter that wraps at the top.
pub open spec fn next_u32(n: u32) -> u32 {
    if n == u32::MAX {
        0
    } else {
        (n + 1) as u32
    }
}

/// Monotonic source of agent IDs, starting at 1.
pub struct AgentIdCounter {
    next: u32,
}

impl View for AgentIdCounter {
    type V = u32;

    closed spec fn view(&self) -> u32 {
        self.next
    }
}

impl AgentIdCounter {
    /// A fresh counter; the first ID it hands out is 1.
    pub fn new() -> (c: Self)
        ensures
            c@ == 1,
    {
        AgentIdCounter { next: 1 }
    }

    /// Take the next agent ID.
    pub fn take(&mut self) -> (id: AgentId)
        ensures
            id.0 == old(self)@,
            final(self)@ == next_u32(old(self)@),
    {
        let id = AgentId(self.next);
        self.next = self.next.wrapping_add(1);
        id
    }
}

/// An agent running in the kernel
pub struct Agent {
    /// Unique agent ID
    pub id: AgentId,
    /// Human-readable name (for audit logs)
    pub name: [u8; 64],
    /// Name length
    pub name_len: usize,
    /// Current execution state
    pub state: AgentState,
    /// All capability handles owned by this agent
    pub capabilities: Vec<CapHandle>,
    /// Resource budget (hard limits + usage tracking)
    pub budget: ResourceBudget,
    /// Parent agent (who spawned this agent)
    pub parent: Option<AgentId>,
    /// Tick when this agent was spawned
    pub spawn_tick: u64,
    /// Maximum lifetime in ticks (0 = unlimited)
    pub max_lifetime: u64,
}

/// The stored length of a name of `n` bytes: at most 63.
pub open spec fn stored_name_len(n: int) -> int {
    if n < 63 {
        n
    } else {
        63
    }
}

/// `a` has reached the end of its lifetime at `tick`.
pub open spec fn agent_expired(a: Agent, tick: u64) -> bool {
    a.max_lifetime > 0 && tick >= a.spawn_tick + a.max_lifetime
}

impl Agent {
    /// Create a new agent, taking its ID from `ids`. The name is cut to 63 bytes.
    pub fn new(
        name: &str,
        parent: Option<AgentId>,
        budget: ResourceBudget,
        max_lifetime: u64,
        current_tick: u64,
        ids: &mut AgentIdCounter,
    ) -> (a: Self)
        ensures
            a.id.0 == old(ids)@,
            final(ids)@ == next_u32(old(ids)@),
            a.name_len == stored_name_len(name.spec_bytes().len() as int),
            a.name@.subrange(0, a.name_len as int) == name.spec_bytes().subrange(0, a.name_len as int),
            forall|i: int| a.name_len <= i < 64 ==> a.name@[i] == 0,
            a.state == AgentState::Initializing,
            a.capabilities@.len() == 0,
            a.budget == budget,
            a.parent == parent,
            a.spawn_tick == current_tick,
            a.max_lifetime == max_lifetime,
    {
        let id = ids.take();
        let mut name_buf = [0u8; 64];
        let name_bytes = name.as_bytes();
        let copy_len = if name_bytes.len() < 63 {
            name_bytes.len()
        } else {
            63
        };
        let mut i: usize = 0;
        while i < copy_len
            invariant
                copy_len <= 63,
                copy_len <= name_bytes@.len(),
                i <= copy_len,
                forall|k: int| 0 <= k < i ==> name_buf@[k] == name_bytes@[k],
                forall|k: int| i <= k < 64 ==> name_buf@[k] == 0,
            decreases copy_len - i,
        {
            name_buf[i] = name_bytes[i];
            i += 1;
        }
        assert(name_buf@.subrange(0, copy_len as int) =~= name_bytes@.subrange(0, copy_len as int));
        Agent {
            id,
            name: name_buf,
            name_len: copy_len,
            state: AgentState::Initializing,
            capabilities: Vec::new(),
            budget,
            parent,
            spawn_tick: current_tick,
            max_lifetime,
        }
    }

    /// Get agent name as str ("?" when the stored bytes are not UTF-8)
    pub fn name_str(&self) -> (s: &str)
        requires
            self.name_len <= 64,
        ensures
            s@ == decode_or(self.name@.subrange(0, self.name_len as int), "?"@),
    {
        let all: &[u8] = self.name.as_slice();
        let used: &[u8] = &all[0..self.name_len];
        utf8_or(used, "?")
    }

    /// Check if this agent has exceeded its lifetime
    pub fn is_expired(&self, current_tick: u64) -> (b: bool)
        ensures
            b == agent_expired(*self, current_tick),
    {
        self.max_lifetime > 0 && current_tick >= self.spawn_tick && current_tick - self.spawn_tick
            >= self.max_lifetime
    }

    /// Check if this agent has exceeded its compute budget
    pub fn is_over_budget(&self) -> (b: bool)
        ensures
            b == (self.budget.used_compute >= self.budget.compute_ticks),
    {
        self.budget.used_compute >= self.budget.compute_ticks
    }

    /// Add a capability to this agent's set
    pub fn add_capability(&mut self, handle: CapHandle)
        ensures
            final(self).capabilities@ == old(self).capabilities@.push(handle),
            final(self).id == old(self).id,
            final(self).name == old(self).name,
            final(self).name_len == old(self).name_len,
            final(self).state == old(self).state,
            final(self).budget == old(self).budget,
            final(self).parent == old(self).parent,
            final(self).spawn_tick == old(self).spawn_tick,
            final(self).max_lifetime == old(self).max_lifetime,
    {
        self.capabilities.push(handle);
    }

    /// Transition to a new state
    pub fn set_state(&mut self, new_state: AgentState)
        ensures
            final(self).state == new_state,
            final(self).id == old(self).id,
            final(self).name == old(self).name,
            final(self).name_len == old(self).name_len,
            final(self).capabilities == old(self).capabilities,
            final(self).budget == old(self).budget,
            final(self).parent == old(self).parent,
            final(self).spawn_tick == old(self).spawn_tick,
            final(self).max_lifetime == old(self).max_lifetime,
    {
        self.state = new_state;
    }
}

/// `b` is `a` with only its state changed, to `st`.
pub open spec fn agent_with_state(a: Agent, b: Agent, st: AgentState) -> bool {
    &&& b.state == st
    &&& b.id == a.id
    &&& b.name == a.name
    &&& b.name_len == a.name_len
    &&& b.capabilities == a.capabilities
    &&& b.budget == a.budget
    &&& b.parent == a.parent
    &&& b.spawn_tick == a.spawn_tick
    &&& b.max_lifetime == a.max_lifetime
}

/// Index `i` holds the first agent with ID `id`.
pub open spec fn first_with_id(s: Seq<Agent>, id: AgentId, i: int) -> bool {
    0 <= i < s.len() && s[i].id == id && forall|k: int| 0 <= k < i ==> s[k].id != id
}

/// Some agent in `s` has ID `id`.
pub open spec fn has_id(s: Seq<Agent>, id: AgentId) -> bool {
    exists|i: int| 0 <= i < s.len() && s[i].id == id
}

/// The agents of `s` that have not terminated, in order.
pub open spec fn live_agents(s: Seq<Agent>) -> Seq<Agent> {
    s.filter(|a: Agent| a.state != AgentState::Terminated)
}

/// Extending a prefix by one agent extends its live agents by that agent when it is live.
pub proof fn lemma_live_agents_take_step(s: Seq<Agent>, k: int)
    requires
        0 <= k < s.len(),
    ensures
        live_agents(s.take(k + 1)) == if s[k].state != AgentState::Terminated {
            live_agents(s.take(k)).push(s[k])
        } else {
            live_agents(s.take(k))
        },
{
    reveal(Seq::filter);
    assert(s.take(k + 1).drop_last() =~= s.take(k));
    assert(s.take(k + 1).last() == s[k]);
}

/// The live agents of one agent.
proof fn lemma_live_agents_single(a: Agent)
    ensures
        live_agents(seq![a]).len() == if a.state != AgentState::Terminated {
            1int
        } else {
            0int
        },
{
    let p = |x: Agent| x.state != AgentState::Terminated;
    Seq::<Agent>::empty().lemma_filter_len_push(p, a);
    assert(Seq::<Agent>::empty().push(a) =~= seq![a]);
    assert(Seq::<Agent>::empty().filter(p) =~= Seq::<Agent>::empty()) by {
        reveal(Seq::filter);
    }
}

/// Spawning adds one live agent: when `spawn` appends an agent that has not
/// terminated (it appends one in `Initializing`), `active_count` afterwards
/// is one more than before.
pub proof fn lemma_spawn_adds_one_active(s: Seq<Agent>, a: Agent)
    requires
        a.state != AgentState::Terminated,
    ensures
        live_agents(s.push(a)).len() == live_agents(s).len() + 1,
{
    s.lemma_filter_len_push(|x: Agent| x.state != AgentState::Terminated, a);
}

/// Killing removes one live agent: when `kill` terminates agent `i`,
/// `active_count` drops by one if that agent had not terminated before, and
/// stays the same if it had.
pub proof fn lemma_kill_removes_one_active(s: Seq<Agent>, i: int, b: Agent)
    requires
        0 <= i < s.len(),
        b.state == AgentState::Terminated,
    ensures
        live_agents(s.update(i, b)).len() == live_agents(s).len() - if s[i].state
            != AgentState::Terminated {
            1int
        } else {
            0int
        },
{
    let p = |x: Agent| x.state != AgentState::Terminated;
    let pre = s.take(i);
    let post = s.skip(i + 1);
    assert(s =~= pre + seq![s[i]] + post);
    assert(s.update(i, b) =~= pre + seq![b] + post);
    Seq::filter_distributes_over_add(pre + seq![s[i]], post, p);
    Seq::filter_distributes_over_add(pre, seq![s[i]], p);
    Seq::filter_distributes_over_add(pre + seq![b], post, p);
    Seq::filter_distributes_over_add(pre, seq![b], p);
    lemma_live_agents_single(s[i]);
    lemma_live_agents_single(b);
}

/// `a` has outlived its lifetime at `tick` and has not terminated yet.
pub open spec fn timed_out(a: Agent, tick: u64) -> bool {
    agent_expired(a, tick) && a.state != AgentState::Terminated
}

/// Capability `e` belongs to an agent of `s` that has timed out at `tick`.
pub open spec fn owned_by_timed_out(s: Seq<Agent>, tick: u64, e: CapEntry) -> bool {
    exists|k: int| 0 <= k < s.len() && timed_out(#[trigger] s[k], tick) && s[k].id == e.owner
}

/// Every agent of `s` has its own ID, between 0 and `next`.
pub open spec fn fresh_ids(s: Seq<Agent>, next: u32) -> bool {
    &&& forall|i: int| 0 <= i < s.len() ==> 0 < #[trigger] s[i].id.0 < next
    &&& forall|i: int, j: int|
        0 <= i < s.len() && 0 <= j < s.len() && i != j ==> #[trigger] s[i].id != #[trigger] s[j].id
}

/// Dropping terminated agents keeps every remaining ID distinct.
pub proof fn lemma_live_agents_fresh(s: Seq<Agent>, next: u32)
    requires
        fresh_ids(s, next),
    ensures
        fresh_ids(live_agents(s), next),
    decreases s.len(),
{
    let p = |x: Agent| x.state != AgentState::Terminated;
    if s.len() == 0 {
        assert(live_agents(s) =~= Seq::<Agent>::empty()) by {
            reveal(Seq::filter);
        }
    } else {
        let t = s.drop_last();
        let x = s.last();
        assert(s =~= t.push(x));
        assert forall|i: int, j: int|
            0 <= i < t.len() && 0 <= j < t.len() && i != j implies #[trigger] t[i].id != #[trigger] t[j].id by {
            assert(s[i] == t[i] && s[j] == t[j]);
        }
        assert forall|i: int| 0 <= i < t.len() implies 0 < #[trigger] t[i].id.0 < next by {
            assert(s[i] == t[i]);
        }
        lemma_live_agents_fresh(t, next);
        t.lemma_filter_push(x, p);
        let lt = live_agents(t);
        if p(x) {
            let ls = lt.push(x);
            assert(live_agents(s) == ls);
            assert forall|i: int| 0 <= i < lt.len() implies #[trigger] lt[i].id != x.id by {
                assert(lt.contains(lt[i]));
                t.lemma_filter_contains_rev(p, lt[i]);
                let k = choose|k: int| 0 <= k < t.len() && t[k] == lt[i];
                assert(s[k] == t[k]);
                assert(s[s.len() - 1] == x);
            }
            assert forall|i: int, j: int|
                0 <= i < ls.len() && 0 <= j < ls.len() && i != j implies #[trigger] ls[i].id != #[trigger] ls[j].id by {
                if i < lt.len() && j < lt.len() {
                    assert(ls[i] == lt[i] && ls[j] == lt[j]);
                } else if i < lt.len() {
                    assert(ls[i] == lt[i]);
                } else if j < lt.len() {
                    assert(ls[j] == lt[j]);
                }
            }
            assert forall|i: int| 0 <= i < ls.len() implies 0 < #[trigger] ls[i].id.0 < next by {
                if i < lt.len() {
                    assert(ls[i] == lt[i]);
                } else {
                    assert(s[s.len() - 1] == x);
                }
            }
        }
    }
}

/// Agent table — manages all agents
pub struct AgentTable {
    agents: Vec<Agent>,
    ids: AgentIdCounter,
}

impl AgentTable {
    /// The agents, in spawn order.
    pub closed spec fn view(&self) -> Seq<Agent> {
        self.agents@
    }

    /// The ID the next spawned agent will get.
    pub closed spec fn spec_next_id(&self) -> u32 {
        self.ids@
    }

    /// Every agent has its own ID, below the counter (which has not wrapped).
    pub open spec fn ids_fresh(&self) -> bool {
        &&& self.spec_next_id() > 0
        &&& fresh_ids(self@, self.spec_next_id())
    }

    /// An empty table; the first agent spawned gets ID 1.
    pub fn new() -> (t: Self)
        ensures
            t@ == Seq::<Agent>::empty(),
            t.spec_next_id() == 1,
            t.ids_fresh(),
    {
        Self { agents: Vec::new(), ids: AgentIdCounter::new() }
    }

    /// Spawn a new agent
    pub fn spawn(
        &mut self,
        name: &str,
        parent: Option<AgentId>,
        budget: ResourceBudget,
        max_lifetime: u64,
        current_tick: u64,
    ) -> (r: Result<AgentId, &'static str>)
        ensures
            r is Err <==> old(self)@.len() >= MAX_AGENTS,
            r matches Err(e) ==> e@ == "max agents reached"@ && final(self)@ == old(self)@
                && final(self).spec_next_id() == old(self).spec_next_id(),
            r matches Ok(id) ==> {
                let a = final(self)@.last();
                &&& id.0 == old(self).spec_next_id()
                &&& final(self).spec_next_id() == next_u32(old(self).spec_next_id())
                &&& final(self)@ == old(self)@.push(a)
                &&& a.id == id
                &&& a.name_len == stored_name_len(name.spec_bytes().len() as int)
                &&& a.name@.subrange(0, a.name_len as int) == name.spec_bytes().subrange(0, a.name_len as int)
                &&& a.state == AgentState::Initializing
                &&& a.capabilities@.len() == 0
                &&& a.budget == budget
                &&& a.parent == parent
                &&& a.spawn_tick == current_tick
                &&& a.max_lifetime == max_lifetime
            },
            old(self).ids_fresh() && old(self).spec_next_id() < u32::MAX ==> final(self).ids_fresh(),
            old(self).ids_fresh() && old(self).spec_next_id() < u32::MAX ==> (r matches Ok(id) ==> !has_id(old(self)@, id)),
    {
        if self.agents.len() >= MAX_AGENTS {
            return Err("max agents reached");
        }
        let agent = Agent::new(name, parent, budget, max_lifetime, current_tick, &mut self.ids);
        let id = agent.id;
        let ghost before = self.agents@;
        self.agents.push(agent);
        proof {
            if old(self).ids_fresh() && old(self).spec_next_id() < u32::MAX {
                let n = before.len() as int;
                assert forall|i: int| 0 <= i < self@.len() implies 0 < #[trigger] self@[i].id.0 < self.spec_next_id() by {
                    if i < n {
                        assert(self@[i] == before[i]);
                        assert(0 < before[i].id.0 < old(self).spec_next_id());
                    }
                }
                assert forall|i: int, j: int|
                    0 <= i < self@.len() && 0 <= j < self@.len() && i != j implies #[trigger] self@[i].id
                        != #[trigger] self@[j].id by {
                    if i < n {
                        assert(self@[i] == before[i]);
                        assert(0 < before[i].id.0 < old(self).spec_next_id());
                    }
                    if j < n {
                        assert(self@[j] == before[j]);
                        assert(0 < before[j].id.0 < old(self).spec_next_id());
                    }
                }
                assert forall|i: int| 0 <= i < before.len() implies before[i].id != id by {
                    assert(0 < before[i].id.0 < old(self).spec_next_id());
                }
            }
        }
        Ok(id)
    }

    /// Index of the first agent with ID `id`.
    fn find_index(&self, id: AgentId) -> (r: Option<usize>)
        ensures
            match r {
                Some(i) => first_with_id(self@, id, i as int),
                None => !has_id(self@, id),
            },
    {
        let mut i: usize = 0;
        while i < self.agents.len()
            invariant
                i <= self.agents@.len(),
                forall|k: int| 0 <= k < i ==> self.agents@[k].id != id,
            decreases self.agents@.len() - i,
        {
            if self.agents[i].id == id {
                return Some(i);
            }
            i += 1;
        }
        None
    }

    /// Find an agent by ID
    pub fn get(&self, id: AgentId) -> (r: Option<&Agent>)
        ensures
            r is None <==> !has_id(self@, id),
            r matches Some(a) ==> exists|i: int| first_with_id(self@, id, i) && *a == self@[i],
    {
        match self.find_index(id) {
            Some(i) => Some(&self.agents[i]),
            None => None,
        }
    }

    /// Find an agent by ID (mutable)
    pub fn get_mut(&mut self, id: AgentId) -> (r: Option<&mut Agent>)
        ensures
            r is None <==> !has_id(old(self)@, id),
            r is None ==> final(self)@ == old(self)@,
            r matches Some(a) ==> exists|i: int|
                first_with_id(old(self)@, id, i) && *a == old(self)@[i] && final(self)@ == old(
                    self,
                )@.update(i, *final(a)),
            final(self).spec_next_id() == old(self).spec_next_id(),
    {
        match self.find_index(id) {
            Some(i) => Some(&mut self.agents[i]),
            None => None,
        }
    }

    /// Kill an agent: mark it terminated and revoke every capability it owns.
    pub fn kill(&mut self, id: AgentId, caps: &mut CapTable) -> (r: Result<(), &'static str>)
        requires
            old(caps).wf(),
        ensures
            final(caps).wf(),
            final(self).spec_next_id() == old(self).spec_next_id(),
            r is Err <==> !has_id(old(self)@, id),
            r matches Err(e) ==> e@ == "agent not found"@ && final(self)@ == old(self)@
                && final(caps)@ == old(caps)@,
            r is Ok ==> {
                &&& exists|i: int|
                    first_with_id(old(self)@, id, i) && final(self)@ == old(self)@.update(
                        i,
                        final(self)@[i],
                    ) && agent_with_state(old(self)@[i], final(self)@[i], AgentState::Terminated)
                &&& final(caps)@ == revoke_where_spec(old(caps)@, |e: CapEntry| e.owner == id)
            },
            old(self).ids_fresh() ==> final(self).ids_fresh(),
    {
        let agent = match self.get_mut(id) {
            Some(a) => a,
            None => return Err("agent not found"),
        };
        agent.set_state(AgentState::Terminated);
        caps.revoke_all_for_agent(id);
        Ok(())
    }

    /// Get number of active (non-terminated) agents
    pub fn active_count(&self) -> (n: usize)
        ensures
            n as int == live_agents(self@).len(),
    {
        let mut n: usize = 0;
        let mut i: usize = 0;
        while i < self.agents.len()
            invariant
                i <= self.agents@.len(),
                n as int == live_agents(self.agents@.take(i as int)).len(),
                n <= i,
            decreases self.agents@.len() - i,
        {
            proof {
                lemma_live_agents_take_step(self.agents@, i as int);
            }
            if self.agents[i].state != AgentState::Terminated {
                n += 1;
            }
            i += 1;
        }
        assert(self.agents@.take(i as int) =~= self.agents@);
        n
    }

    /// Garbage collect: remove terminated agents
    pub fn gc(&mut self)
        ensures
            final(self)@ == live_agents(old(self)@),
            final(self).spec_next_id() == old(self).spec_next_id(),
            old(self).ids_fresh() ==> final(self).ids_fresh(),
    {
        let ghost s0 = self.agents@;
        let ghost mut k: int = 0;
        let mut i: usize = 0;
        proof {
            assert(s0.take(0) =~= Seq::<Agent>::empty());
            reveal(Seq::filter);
            assert(self.agents@ =~= live_agents(s0.take(0)) + s0.skip(0));
        }
        while i < self.agents.len()
            invariant
                0 <= k <= s0.len(),
                self.ids@ == old(self).ids@,
                i as int == live_agents(s0.take(k)).len(),
                self.agents@ == live_agents(s0.take(k)) + s0.skip(k),
            decreases s0.len() - k,
        {
            proof {
                lemma_live_agents_take_step(s0, k);
                assert(self.agents@[i as int] == s0[k]);
            }
            if self.agents[i].state == AgentState::Terminated {
                self.agents.remove(i);
                proof {
                    assert(self.agents@ =~= live_agents(s0.take(k + 1)) + s0.skip(k + 1));
                    k = k + 1;
                }
            } else {
                i += 1;
                proof {
                    assert(self.agents@ =~= live_agents(s0.take(k + 1)) + s0.skip(k + 1));
                    k = k + 1;
                }
            }
        }
        proof {
            assert(s0.skip(k).len() == 0);
            assert(s0.take(k) =~= s0);
            assert(self.agents@ =~= live_agents(s0));
            if old(self).ids_fresh() {
                lemma_live_agents_fresh(s0, self.ids@);
            }
        }
    }

    /// Check all agents for expired lifetimes and kill them
    pub fn enforce_timeouts(&mut self, current_tick: u64, caps: &mut CapTable)
        requires
            old(caps).wf(),
        ensures
            final(caps).wf(),
            final(self).spec_next_id() == old(self).spec_next_id(),
            final(self)@.len() == old(self)@.len(),
            old(self).ids_fresh() ==> forall|i: int|
                0 <= i < old(self)@.len() ==> agent_with_state(
                    #[trigger] old(self)@[i],
                    final(self)@[i],
                    if timed_out(old(self)@[i], current_tick) {
                        AgentState::Terminated
                    } else {
                        old(self)@[i].state
                    },
                ),
            old(self).ids_fresh() ==> final(self).ids_fresh(),
            old(self).ids_fresh() ==> final(caps)@ == revoke_where_spec(
                old(caps)@,
                |e: CapEntry| owned_by_timed_out(old(self)@, current_tick, e),
            ),
    {
        let ghost s0 = self.agents@;
        let ghost c0 = caps@;
        let mut expired_ids: Vec<AgentId> = Vec::new();
        let mut i: usize = 0;
        while i < self.agents.len()
            invariant
                self.agents@ == s0,
                i <= s0.len(),
                forall|x: AgentId|
                    expired_ids@.contains(x) <==> exists|k: int|
                        0 <= k < i && timed_out(#[trigger] s0[k], current_tick) && s0[k].id == x,
            decreases s0.len() - i,
        {
            let a = &self.agents[i];
            let ghost pre = expired_ids@;
            if a.is_expired(current_tick) && a.state != AgentState::Terminated {
                expired_ids.push(a.id);
                proof {
                    assert forall|x: AgentId|
                        expired_ids@.contains(x) <==> exists|k: int|
                            0 <= k < i + 1 && timed_out(#[trigger] s0[k], current_tick) && s0[k].id == x by {
                        lemma_seq_contains_after_push(pre, s0[i as int].id, x);
                        if x == s0[i as int].id {
                            assert(timed_out(s0[i as int], current_tick));
                        }
                        if exists|k: int| 0 <= k < i + 1 && timed_out(#[trigger] s0[k], current_tick) && s0[k].id == x {
                            let k = choose|k: int| 0 <= k < i + 1 && timed_out(#[trigger] s0[k], current_tick) && s0[k].id == x;
                            if k < i {
                                assert(pre.contains(x));
                            }
                        }
                    }
                }
            } else {
                proof {
                    assert(!timed_out(s0[i as int], current_tick));
                    assert forall|x: AgentId|
                        expired_ids@.contains(x) <==> exists|k: int|
                            0 <= k < i + 1 && timed_out(#[trigger] s0[k], current_tick) && s0[k].id == x by {
                        if exists|k: int| 0 <= k < i + 1 && timed_out(#[trigger] s0[k], current_tick) && s0[k].id == x {
                            let k = choose|k: int| 0 <= k < i + 1 && timed_out(#[trigger] s0[k], current_tick) && s0[k].id == x;
                            assert(k != i);
                            assert(exists|k: int| 0 <= k < i && timed_out(#[trigger] s0[k], current_tick) && s0[k].id == x);
                        }
                    }
                }
            }
            i += 1;
        }
        proof {
            lemma_revoke_where_nothing(c0, |e: CapEntry| expired_ids@.take(0).contains(e.owner));
        }
        let mut j: usize = 0;
        while j < expired_ids.len()
            invariant
                j <= expired_ids@.len(),
                caps.wf(),
                self.ids@ == old(self).ids@,
                self.agents@.len() == s0.len(),
                forall|x: AgentId|
                    expired_ids@.contains(x) <==> exists|k: int|
                        0 <= k < s0.len() && timed_out(#[trigger] s0[k], current_tick) && s0[k].id == x,
                old(self).ids_fresh() ==> s0 == old(self)@,
                old(self).ids_fresh() ==> forall|k: int|
                    0 <= k < s0.len() ==> agent_with_state(
                        #[trigger] s0[k],
                        self.agents@[k],
                        if expired_ids@.take(j as int).contains(s0[k].id) {
                            AgentState::Terminated
                        } else {
                            s0[k].state
                        },
                    ),
                old(self).ids_fresh() ==> caps@ == revoke_where_spec(
                    c0,
                    |e: CapEntry| expired_ids@.take(j as int).contains(e.owner),
                ),
            decreases expired_ids@.len() - j,
        {
            let id = expired_ids[j];
            let ghost now = self.agents@;
            let ghost cnow = caps@;
            let _ = self.kill(id, caps);
            proof {
                if old(self).ids_fresh() {
                    assert(expired_ids@.contains(id)) by {
                        assert(expired_ids@[j as int] == id);
                    }
                    let k0 = choose|k: int| 0 <= k < s0.len() && timed_out(#[trigger] s0[k], current_tick) && s0[k].id == id;
                    assert(now[k0].id == id) by {
                        assert(agent_with_state(s0[k0], now[k0], if expired_ids@.take(j as int).contains(s0[k0].id) { AgentState::Terminated } else { s0[k0].state }));
                    }
                    assert(has_id(now, id));
                    let ki = choose|ki: int| first_with_id(now, id, ki) && self.agents@ == now.update(ki, self.agents@[ki]) && agent_with_state(now[ki], self.agents@[ki], AgentState::Terminated);
                    assert(ki == k0) by {
                        assert(agent_with_state(s0[ki], now[ki], if expired_ids@.take(j as int).contains(s0[ki].id) { AgentState::Terminated } else { s0[ki].state }));
                        assert(old(self)@[ki].id == old(self)@[k0].id);
                    }
                    assert(expired_ids@.take(j + 1) =~= expired_ids@.take(j as int).push(id));
                    assert forall|x: AgentId| expired_ids@.take(j + 1).contains(x) <==> (expired_ids@.take(j as int).contains(x) || x == id) by {
                        lemma_seq_contains_after_push(expired_ids@.take(j as int), id, x);
                    }
                    assert forall|k: int| 0 <= k < s0.len() implies agent_with_state(
                        #[trigger] s0[k],
                        self.agents@[k],
                        if expired_ids@.take(j + 1).contains(s0[k].id) {
                            AgentState::Terminated
                        } else {
                            s0[k].state
                        },
                    ) by {
                        assert(agent_with_state(s0[k], now[k], if expired_ids@.take(j as int).contains(s0[k].id) { AgentState::Terminated } else { s0[k].state }));
                        if k != k0 {
                            assert(old(self)@[k].id != old(self)@[k0].id);
                        }
                    }
                    let p1 = |e: CapEntry| expired_ids@.take(j as int).contains(e.owner);
                    let p2 = |e: CapEntry| e.owner == id;
                    assert(ignores_revoked(p1)) by {
                        assert forall|e: CapEntry| #[trigger] p1(e) == p1(with_revoked(e, false)) by {}
                    }
                    assert(ignores_revoked(p2)) by {
                        assert forall|e: CapEntry| #[trigger] p2(e) == p2(with_revoked(e, false)) by {}
                    }
                    lemma_revoke_where_compose(c0, p1, p2);
                    lemma_revoke_where_same_pred(
                        c0,
                        |e: CapEntry| p1(e) || p2(e),
                        |e: CapEntry| expired_ids@.take(j + 1).contains(e.owner),
                    );
                }
            }
            j += 1;
        }
        proof {
            if old(self).ids_fresh() {
                assert(expired_ids@.take(j as int) =~= expired_ids@);
                lemma_revoke_where_same_pred(
                    c0,
                    |e: CapEntry| expired_ids@.contains(e.owner),
                    |e: CapEntry| owned_by_timed_out(old(self)@, current_tick, e),
                );
                assert forall|k: int| 0 <= k < s0.len() implies (expired_ids@.contains(#[trigger] s0[k].id) == timed_out(s0[k], current_tick)) by {
                    if expired_ids@.contains(s0[k].id) {
                        let m = choose|m: int| 0 <= m < s0.len() && timed_out(#[trigger] s0[m], current_tick) && s0[m].id == s0[k].id;
                        if m != k {
                            assert(old(self)@[m].id != old(self)@[k].id);
                        }
                    }
                }
                let f = self.agents@;
                assert forall|k: int| 0 <= k < f.len() implies #[trigger] f[k].id == s0[k].id by {
                    assert(agent_with_state(s0[k], f[k], if expired_ids@.take(j as int).contains(s0[k].id) { AgentState::Terminated } else { s0[k].state }));
                }
                assert forall|a: int, b: int| 0 <= a < f.len() && 0 <= b < f.len() && a != b implies #[trigger] f[a].id != #[trigger] f[b].id by {
                    assert(f[a].id == s0[a].id && f[b].id == s0[b].id);
                }
                assert forall|a: int| 0 <= a < f.len() implies 0 < #[trigger] f[a].id.0 < self.spec_next_id() by {
                    assert(f[a].id == s0[a].id);
                }
            }
        }
    }
}

} // verus!

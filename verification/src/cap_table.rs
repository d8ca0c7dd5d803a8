//! Kernel capability table.
//!
//! The kernel owns all capabilities; agents only see opaque handles.
//! - Capabilities have expiry times (auto-revocation)
//! - Delegation creates child capabilities that are revoked with their parents
//! - A delegated capability never holds more rights than its parent

use crate::capability::types::{
    bits_contain, lemma_contains_empty, lemma_contains_reflexive, lemma_contains_transitive,
    next_u64, CapId,
    CapIdCounter, Rights,
};
use crate::resource::ResourceRef;
use vstd::prelude::*;
use vstd::set_lib::{lemma_int_range, lemma_len_subset, set_int_range};

verus! {

/// Maximum number of active capabilities in the system
pub const MAX_CAPABILITIES: usize = 4096;

/// Most slots the table can have: a handle is a 32-bit slot number, and
/// revoked capabilities keep their slots, so that their handles keep
/// reporting `Revoked`.
pub const MAX_SLOTS: usize = 0xFFFF_FFFF;

/// Opaque handle that agents use to reference capabilities
#[derive(Debug, Clone, Copy, PartialEq, Eq, Structural)]
pub struct CapHandle(pub u32);

/// Unique agent identifier
#[derive(Debug, Clone, Copy, PartialEq, Eq, Structural)]
pub struct AgentId(pub u32);

/// Kernel-internal capability entry
#[derive(Debug, Clone, Copy)]
pub struct CapEntry {
    /// Unique capability ID (globally unique, monotonic)
    pub id: CapId,
    /// What resource this grants access to
    pub resource: ResourceRef,
    /// What rights are granted
    pub rights: Rights,
    /// Which agent owns this capability
    pub owner: AgentId,
    /// Parent capability (for delegation chain revocation)
    pub parent: Option<CapHandle>,
    /// Tick at which this capability expires (0 = never)
    pub expires_at: u64,
    /// Has this capability been revoked?
    pub revoked: bool,
    /// Tick when this capability was created (for audit)
    pub created_at: u64,
}

/// Error types for capability operations
#[derive(Debug, Clone, Copy, PartialEq, Eq, Structural)]
pub enum CapError {
    /// No free slots in the capability table
    TableFull,
    /// Handle does not reference a valid capability
    InvalidHandle,
    /// Capability has been revoked
    Revoked,
    /// Capability has expired
    Expired,
    /// Insufficient rights for the requested operation
    InsufficientRights,
    /// Cannot escalate: requested rights exceed parent
    EscalationDenied,
    /// Agent does not own this capability
    NotOwner,
}

/// The kernel capability table
pub struct CapTable {
    /// Capability entries (None = free slot)
    entries: Vec<Option<CapEntry>>,
    /// Number of active (non-revoked) capabilities
    active_count: usize,
    /// Source of capability IDs
    ids: CapIdCounter,
}

// ─── Model ──────────────────────────────────────────────────────

/// Slot `i` exists and holds a capability.
pub open spec fn slot_used(s: Seq<Option<CapEntry>>, i: int) -> bool {
    0 <= i < s.len() && s[i] is Some
}

/// The capability in slot `i` (meaningful when the slot is used).
pub open spec fn entry_at(s: Seq<Option<CapEntry>>, i: int) -> CapEntry {
    s[i].unwrap()
}

/// Slot `i` holds a capability that has not been revoked.
pub open spec fn is_live(s: Seq<Option<CapEntry>>, i: int) -> bool {
    slot_used(s, i) && !entry_at(s, i).revoked
}

/// The set of slots holding active (non-revoked) capabilities.
pub open spec fn active_set(s: Seq<Option<CapEntry>>) -> Set<int> {
    Set::new(|i: int| is_live(s, i))
}

/// `j` is `h` or a capability delegated, directly or through a chain of
/// delegations, from `h`.
pub open spec fn is_descendant(s: Seq<Option<CapEntry>>, j: int, h: int) -> bool
    decreases j,
{
    if !slot_used(s, j) || j < h {
        false
    } else if j == h {
        true
    } else {
        match entry_at(s, j).parent {
            Some(p) => if (p.0 as int) < j {
                is_descendant(s, p.0 as int, h)
            } else {
                false
            },
            None => false,
        }
    }
}

/// `e` with its revoked flag set to `b`.
pub open spec fn with_revoked(e: CapEntry, b: bool) -> CapEntry {
    CapEntry {
        id: e.id,
        resource: e.resource,
        rights: e.rights,
        owner: e.owner,
        parent: e.parent,
        expires_at: e.expires_at,
        revoked: b,
        created_at: e.created_at,
    }
}

/// `s` with every capability in slots selected by `sel` marked revoked.
pub open spec fn mark_revoked(s: Seq<Option<CapEntry>>, sel: spec_fn(int) -> bool) -> Seq<
    Option<CapEntry>,
> {
    Seq::new(
        s.len(),
        |j: int|
            match s[j] {
                Some(e) => Some(with_revoked(e, e.revoked || sel(j))),
                None => None,
            },
    )
}

/// The table after revoking `h`: `h` and everything delegated from it is revoked.
pub open spec fn revoke_spec(s: Seq<Option<CapEntry>>, h: int) -> Seq<Option<CapEntry>> {
    mark_revoked(s, |j: int| is_descendant(s, j, h))
}

/// `j` has an ancestor in the delegation chain (possibly `j` itself), in a
/// slot below `bound`, whose capability satisfies `pred`.
pub open spec fn has_marked_ancestor(
    s: Seq<Option<CapEntry>>,
    j: int,
    pred: spec_fn(CapEntry) -> bool,
    bound: int,
) -> bool
    decreases j,
{
    if !slot_used(s, j) {
        false
    } else if j < bound && pred(entry_at(s, j)) {
        true
    } else {
        match entry_at(s, j).parent {
            Some(p) => if 0 <= (p.0 as int) < j {
                has_marked_ancestor(s, p.0 as int, pred, bound)
            } else {
                false
            },
            None => false,
        }
    }
}

/// The table after revoking every capability that satisfies `pred`,
/// together with everything delegated from them.
pub open spec fn revoke_where_spec(s: Seq<Option<CapEntry>>, pred: spec_fn(CapEntry) -> bool) -> Seq<
    Option<CapEntry>,
> {
    mark_revoked(s, |j: int| has_marked_ancestor(s, j, pred, s.len() as int))
}

/// `pred` looks only at the parts of a capability that revocation leaves alone.
pub open spec fn ignores_revoked(pred: spec_fn(CapEntry) -> bool) -> bool {
    forall|e: CapEntry| #[trigger] pred(e) == pred(with_revoked(e, false))
}

/// The outcome of checking handle `h` for rights `required` at tick `tick`.
pub open spec fn check_outcome(
    s: Seq<Option<CapEntry>>,
    h: int,
    required: u32,
    tick: u64,
) -> Result<(), CapError> {
    if !slot_used(s, h) {
        Err(CapError::InvalidHandle)
    } else if entry_at(s, h).revoked {
        Err(CapError::Revoked)
    } else if entry_at(s, h).expires_at > 0 && tick >= entry_at(s, h).expires_at {
        Err(CapError::Expired)
    } else if !bits_contain(entry_at(s, h).rights@, required) {
        Err(CapError::InsufficientRights)
    } else {
        Ok(())
    }
}

/// The outcome of delegating from parent `h` with rights `rights` at tick
/// `tick`: the parent must be usable, and may hand on only rights it holds.
pub open spec fn delegate_outcome(
    s: Seq<Option<CapEntry>>,
    h: int,
    rights: u32,
    tick: u64,
) -> Result<(), CapError> {
    if !slot_used(s, h) {
        Err(CapError::InvalidHandle)
    } else if entry_at(s, h).revoked {
        Err(CapError::Revoked)
    } else if expired_at(entry_at(s, h), tick) {
        Err(CapError::Expired)
    } else if !bits_contain(entry_at(s, h).rights@, rights) {
        Err(CapError::EscalationDenied)
    } else {
        Ok(())
    }
}

/// The capability in slot `i` has expired at tick `tick`.
pub open spec fn expired_at(e: CapEntry, tick: u64) -> bool {
    e.expires_at > 0 && tick >= e.expires_at
}

/// Index of the first free slot, when one exists.
pub open spec fn first_free(s: Seq<Option<CapEntry>>, k: int) -> bool {
    0 <= k < s.len() && s[k] is None && forall|j: int| 0 <= j < k ==> s[j] is Some
}

/// Every slot of the table holds a capability.
pub open spec fn all_slots_used(s: Seq<Option<CapEntry>>) -> bool {
    forall|j: int| 0 <= j < s.len() ==> s[j] is Some
}

/// No capability can be added: `MAX_CAPABILITIES` are active, or every slot
/// is used and no slot can be added.
pub open spec fn table_full(s: Seq<Option<CapEntry>>) -> bool {
    active_set(s).len() >= MAX_CAPABILITIES || (all_slots_used(s) && s.len() >= MAX_SLOTS)
}

/// Where a new capability goes: the first free slot, or a new slot after
/// the last when every slot is used.
pub open spec fn new_slot(s: Seq<Option<CapEntry>>, k: int) -> bool {
    first_free(s, k) || (all_slots_used(s) && k == s.len())
}

/// `s` with capability `e` put in slot `k` (`k` may be one past the end).
pub open spec fn put_slot(s: Seq<Option<CapEntry>>, k: int, e: CapEntry) -> Seq<Option<CapEntry>> {
    if k < s.len() {
        s.update(k, Some(e))
    } else {
        s.push(Some(e))
    }
}

/// Slot `i` is linked correctly to its parent: the parent sits in an earlier
/// used slot, and the child has the parent's resource and expiry and no
/// more than its rights.
pub open spec fn link_ok(s: Seq<Option<CapEntry>>, i: int) -> bool {
    slot_used(s, i) ==> match entry_at(s, i).parent {
        Some(p) => {
            &&& (p.0 as int) < i
            &&& slot_used(s, p.0 as int)
            &&& bits_contain(entry_at(s, p.0 as int).rights@, entry_at(s, i).rights@)
            &&& entry_at(s, i).resource == entry_at(s, p.0 as int).resource
            &&& entry_at(s, i).expires_at == entry_at(s, p.0 as int).expires_at
        },
        None => true,
    }
}

/// When the parent of slot `i` is revoked, so is slot `i`.
pub open spec fn revocation_closed_at(s: Seq<Option<CapEntry>>, i: int) -> bool {
    slot_used(s, i) ==> match entry_at(s, i).parent {
        Some(p) => slot_used(s, p.0 as int) && entry_at(s, p.0 as int).revoked ==> entry_at(
            s,
            i,
        ).revoked,
        None => true,
    }
}

/// Slot `i` holds the capability whose ID is `i + 1`.
pub open spec fn id_ok(s: Seq<Option<CapEntry>>, i: int, next: u64) -> bool {
    &&& slot_used(s, i) ==> entry_at(s, i).id@ == i + 1 && i + 1 < next
    &&& (0 <= i < s.len() && s[i] is None) ==> next <= i + 1
}

/// Two tables differ at most in the revoked flags.
pub open spec fn same_but_revoked(a: Seq<Option<CapEntry>>, b: Seq<Option<CapEntry>>) -> bool {
    &&& a.len() == b.len()
    &&& forall|j: int|
        0 <= j < a.len() ==> (#[trigger] a[j] is Some) == (b[j] is Some) && (a[j] is Some
            ==> with_revoked(a[j].unwrap(), false) == with_revoked(b[j].unwrap(), false))
}

/// The structure of a table: slot count, used slots forming a prefix,
/// parent links, capability IDs and the active count.
pub open spec fn structure_ok(s: Seq<Option<CapEntry>>, active: usize, next: u64) -> bool {
    &&& MAX_CAPABILITIES <= s.len() <= MAX_SLOTS
    &&& next >= 1
    &&& next <= s.len() + 1
    &&& forall|i: int, j: int| 0 <= i < j < s.len() && #[trigger] s[j] is Some ==> #[trigger] s[i] is Some
    &&& forall|i: int| 0 <= i < s.len() ==> #[trigger] link_ok(s, i)
    &&& forall|i: int| 0 <= i < s.len() ==> #[trigger] id_ok(s, i, next)
    &&& active_set(s).finite()
    &&& active as int == active_set(s).len()
    &&& active <= MAX_CAPABILITIES
}

/// Revocation is closed under delegation: no live child of a revoked parent.
pub open spec fn revocation_closed(s: Seq<Option<CapEntry>>) -> bool {
    forall|i: int| 0 <= i < s.len() ==> #[trigger] revocation_closed_at(s, i)
}

// ─── Lemmas ─────────────────────────────────────────────────────

/// The active set of any table with `MAX_CAPABILITIES` slots is finite and bounded.
proof fn lemma_active_set_bounded(s: Seq<Option<CapEntry>>)
    ensures
        active_set(s).finite(),
        active_set(s).len() <= s.len(),
{
    lemma_int_range(0, s.len() as int);
    assert(active_set(s).subset_of(set_int_range(0, s.len() as int)));
    lemma_len_subset(active_set(s), set_int_range(0, s.len() as int));
}

/// Revoking one live slot removes exactly that slot from the active set.
proof fn lemma_active_set_revoke_one(s: Seq<Option<CapEntry>>, t: Seq<Option<CapEntry>>, h: int)
    requires
        is_live(s, h),
        t.len() == s.len(),
        forall|j: int| 0 <= j < s.len() && j != h ==> #[trigger] t[j] == s[j],
        t[h] == Some(with_revoked(s[h].unwrap(), true)),
    ensures
        active_set(t) == active_set(s).remove(h),
        active_set(t).len() == active_set(s).len() - 1,
{
    lemma_active_set_bounded(s);
    assert(active_set(t) =~= active_set(s).remove(h));
}

/// Descendancy depends only on the structure of the table.
proof fn lemma_descendant_frame(a: Seq<Option<CapEntry>>, b: Seq<Option<CapEntry>>, j: int, h: int)
    requires
        same_but_revoked(a, b),
    ensures
        is_descendant(a, j, h) == is_descendant(b, j, h),
    decreases j,
{
    if slot_used(a, j) && j > h {
        assert(with_revoked(a[j].unwrap(), false).parent == a[j].unwrap().parent);
        assert(with_revoked(b[j].unwrap(), false).parent == b[j].unwrap().parent);
        match entry_at(a, j).parent {
            Some(p) => {
                if (p.0 as int) < j {
                    lemma_descendant_frame(a, b, p.0 as int, h);
                }
            },
            None => {},
        }
    }
}

/// Under a revocation-closed table, everything delegated from a revoked
/// capability is revoked as well.
proof fn lemma_closed_descendants_revoked(s: Seq<Option<CapEntry>>, j: int, h: int)
    requires
        revocation_closed(s),
        forall|i: int| 0 <= i < s.len() ==> #[trigger] link_ok(s, i),
        slot_used(s, h),
        entry_at(s, h).revoked,
        is_descendant(s, j, h),
    ensures
        entry_at(s, j).revoked,
    decreases j,
{
    if j != h {
        assert(link_ok(s, j));
        assert(revocation_closed_at(s, j));
        let p = entry_at(s, j).parent.unwrap().0 as int;
        lemma_closed_descendants_revoked(s, p, h);
    }
}

/// The revoke specification keeps the table's structure.
proof fn lemma_mark_revoked_same(s: Seq<Option<CapEntry>>, sel: spec_fn(int) -> bool)
    ensures
        same_but_revoked(s, mark_revoked(s, sel)),
{
    let t = mark_revoked(s, sel);
    assert forall|j: int| 0 <= j < s.len() implies (#[trigger] s[j] is Some) == (t[j] is Some) && (
    s[j] is Some ==> with_revoked(s[j].unwrap(), false) == with_revoked(t[j].unwrap(), false)) by {}
}

/// Marking revocations over a table preserves its links and IDs.
proof fn lemma_same_but_revoked_links(a: Seq<Option<CapEntry>>, b: Seq<Option<CapEntry>>, next: u64)
    requires
        same_but_revoked(a, b),
        forall|i: int, j: int| 0 <= i < j < a.len() && #[trigger] a[j] is Some ==> #[trigger] a[i] is Some,
        forall|i: int| 0 <= i < a.len() ==> #[trigger] link_ok(a, i),
        forall|i: int| 0 <= i < a.len() ==> #[trigger] id_ok(a, i, next),
    ensures
        forall|i: int, j: int| 0 <= i < j < b.len() && #[trigger] b[j] is Some ==> #[trigger] b[i] is Some,
        forall|i: int| 0 <= i < b.len() ==> #[trigger] link_ok(b, i),
        forall|i: int| 0 <= i < b.len() ==> #[trigger] id_ok(b, i, next),
{
    assert forall|i: int, j: int| 0 <= i < j < b.len() && #[trigger] b[j] is Some implies #[trigger] b[i] is Some by {
        assert(a[j] is Some);
        assert(a[i] is Some);
    }
    assert forall|i: int| 0 <= i < b.len() implies #[trigger] link_ok(b, i) by {
        assert(link_ok(a, i));
        if slot_used(b, i) {
            assert(with_revoked(a[i].unwrap(), false) == with_revoked(b[i].unwrap(), false));
            match entry_at(a, i).parent {
                Some(p) => {
                    let pi = p.0 as int;
                    assert(a[pi] is Some);
                    assert(with_revoked(a[pi].unwrap(), false) == with_revoked(b[pi].unwrap(), false));
                },
                None => {},
            }
        }
    }
    assert forall|i: int| 0 <= i < b.len() implies #[trigger] id_ok(b, i, next) by {
        assert(id_ok(a, i, next));
        if slot_used(b, i) {
            assert(with_revoked(a[i].unwrap(), false) == with_revoked(b[i].unwrap(), false));
        }
    }
}

// ─── Cascade (the revocation walk) ──────────────────────────────

/// Slots reached by the revocation walk from `h`: `h` when live, and every
/// live capability whose parent was reached.
spec fn cascade_reach(s: Seq<Option<CapEntry>>, j: int, h: int) -> bool
    decreases j,
{
    if !slot_used(s, j) || j < h {
        false
    } else if j == h {
        !entry_at(s, j).revoked
    } else {
        !entry_at(s, j).revoked && match entry_at(s, j).parent {
            Some(p) => (p.0 as int) < j && cascade_reach(s, p.0 as int, h),
            None => false,
        }
    }
}

/// The ancestor of `j` that is a direct child of `h`.
spec fn top_child(s: Seq<Option<CapEntry>>, j: int, h: int) -> int
    decreases j,
{
    if !slot_used(s, j) {
        j
    } else {
        match entry_at(s, j).parent {
            Some(p) => if p.0 as int == h {
                j
            } else if (p.0 as int) < j {
                top_child(s, p.0 as int, h)
            } else {
                j
            },
            None => j,
        }
    }
}

/// Every reached slot other than `h` has a direct child of `h` as its top ancestor.
proof fn lemma_reach_top_child(s: Seq<Option<CapEntry>>, j: int, h: int)
    requires
        cascade_reach(s, j, h),
        j != h,
    ensures
        h < top_child(s, j, h) <= j,
        slot_used(s, top_child(s, j, h)),
        entry_at(s, top_child(s, j, h)).parent == Some(CapHandle(h as u32)),
        cascade_reach(s, top_child(s, j, h), h),
        0 <= h < u32::MAX as int + 1,
    decreases j,
{
    let p = entry_at(s, j).parent.unwrap();
    if p.0 as int != h {
        lemma_reach_top_child(s, p.0 as int, h);
    }
}

/// Reaching `j` from child `c` of `h` is reaching `j` from `h` through `c`.
proof fn lemma_reach_through_child(s: Seq<Option<CapEntry>>, j: int, h: int, c: int)
    requires
        slot_used(s, c),
        entry_at(s, c).parent == Some(CapHandle(h as u32)),
        0 <= h < c,
        h <= u32::MAX,
        !entry_at(s, h).revoked,
        slot_used(s, h),
    ensures
        cascade_reach(s, j, c) == (cascade_reach(s, j, h) && j != h && top_child(s, j, h) == c),
    decreases j,
{
    if cascade_reach(s, j, h) && j != h {
        lemma_reach_top_child(s, j, h);
    }
    assert(cascade_reach(s, h, h));
    if j == c {
        assert(top_child(s, c, h) == c);
    }
    if slot_used(s, j) && j > c {
        match entry_at(s, j).parent {
            Some(p) => {
                if (p.0 as int) < j && p.0 as int != h {
                    lemma_reach_through_child(s, p.0 as int, h, c);
                }
            },
            None => {},
        }
    }
}

/// Descendants of a direct child `c` of `h` have `c` as top ancestor.
proof fn lemma_desc_of_child(s: Seq<Option<CapEntry>>, k: int, h: int, c: int)
    requires
        slot_used(s, c),
        entry_at(s, c).parent == Some(CapHandle(h as u32)),
        0 <= h < c,
        h <= u32::MAX,
        is_descendant(s, k, c),
    ensures
        top_child(s, k, h) == c,
        k != h,
    decreases k,
{
    if k != c {
        let p = entry_at(s, k).parent.unwrap();
        lemma_desc_of_child(s, p.0 as int, h, c);
        assert(p.0 as int != h) by {
            lemma_desc_ge(s, p.0 as int, c);
        }
    }
}

/// Descendants of `c` lie at or after `c`.
proof fn lemma_desc_ge(s: Seq<Option<CapEntry>>, j: int, c: int)
    requires
        is_descendant(s, j, c),
    ensures
        j >= c,
{
}

/// The revocation walk from `c` looks only at descendants of `c`.
proof fn lemma_reach_frame(a: Seq<Option<CapEntry>>, b: Seq<Option<CapEntry>>, j: int, c: int)
    requires
        same_but_revoked(a, b),
        forall|k: int| #[trigger] is_descendant(a, k, c) ==> a[k] == b[k],
    ensures
        cascade_reach(a, j, c) == cascade_reach(b, j, c),
    decreases j,
{
    if slot_used(a, j) && j >= c {
        assert(with_revoked(a[j].unwrap(), false).parent == a[j].unwrap().parent);
        assert(with_revoked(b[j].unwrap(), false).parent == b[j].unwrap().parent);
        if j == c {
            assert(is_descendant(a, j, c));
        } else {
            match entry_at(a, j).parent {
                Some(p) => {
                    if (p.0 as int) < j {
                        lemma_reach_frame(a, b, p.0 as int, c);
                        if cascade_reach(a, p.0 as int, c) || cascade_reach(b, p.0 as int, c) {
                            lemma_reach_is_desc(a, p.0 as int, c);
                            assert(is_descendant(a, j, c));
                        }
                    }
                },
                None => {},
            }
        }
    }
}

/// Every slot reached by the walk from `c` descends from `c`.
proof fn lemma_reach_is_desc(s: Seq<Option<CapEntry>>, j: int, c: int)
    requires
        cascade_reach(s, j, c),
    ensures
        is_descendant(s, j, c),
    decreases j,
{
    if j != c {
        let p = entry_at(s, j).parent.unwrap();
        lemma_reach_is_desc(s, p.0 as int, c);
    }
}

/// In a revocation-closed table the walk from a live `h` reaches exactly
/// the live descendants of `h`.
proof fn lemma_reach_is_live_desc(s: Seq<Option<CapEntry>>, j: int, h: int)
    requires
        revocation_closed(s),
        forall|i: int| 0 <= i < s.len() ==> #[trigger] link_ok(s, i),
        is_live(s, h),
    ensures
        cascade_reach(s, j, h) == (is_descendant(s, j, h) && !entry_at(s, j).revoked),
    decreases j,
{
    if slot_used(s, j) && j > h {
        assert(link_ok(s, j));
        assert(revocation_closed_at(s, j));
        match entry_at(s, j).parent {
            Some(p) => {
                lemma_reach_is_live_desc(s, p.0 as int, h);
            },
            None => {},
        }
    }
}

/// A slot reached by the walk from `h` means `h` was live.
proof fn lemma_reach_root(s: Seq<Option<CapEntry>>, j: int, h: int)
    requires
        cascade_reach(s, j, h),
    ensures
        is_live(s, h),
        j >= h,
    decreases j,
{
    if j != h {
        let p = entry_at(s, j).parent.unwrap();
        lemma_reach_root(s, p.0 as int, h);
    }
}

/// Raising the bound by one adds the descendants of slot `i` when it is marked.
proof fn lemma_marked_step(s: Seq<Option<CapEntry>>, j: int, pred: spec_fn(CapEntry) -> bool, i: int)
    requires
        0 <= i,
    ensures
        has_marked_ancestor(s, j, pred, i + 1) == (has_marked_ancestor(s, j, pred, i) || (slot_used(
            s,
            i,
        ) && pred(entry_at(s, i)) && is_descendant(s, j, i))),
    decreases j,
{
    if slot_used(s, j) {
        match entry_at(s, j).parent {
            Some(p) => {
                if 0 <= (p.0 as int) < j {
                    lemma_marked_step(s, p.0 as int, pred, i);
                    if is_descendant(s, p.0 as int, i) {
                        lemma_desc_ge(s, p.0 as int, i);
                    }
                }
            },
            None => {},
        }
    }
}

/// No capability has a marked ancestor below slot 0.
proof fn lemma_marked_none_below_zero(s: Seq<Option<CapEntry>>, j: int, pred: spec_fn(CapEntry) -> bool)
    ensures
        !has_marked_ancestor(s, j, pred, 0),
    decreases j,
{
    if slot_used(s, j) {
        match entry_at(s, j).parent {
            Some(p) => {
                if 0 <= (p.0 as int) < j {
                    lemma_marked_none_below_zero(s, p.0 as int, pred);
                }
            },
            None => {},
        }
    }
}

/// One step of a "revoke every capability that satisfies `pred`" sweep.
proof fn lemma_revoke_where_step(
    s0: Seq<Option<CapEntry>>,
    now: Seq<Option<CapEntry>>,
    after: Seq<Option<CapEntry>>,
    pred: spec_fn(CapEntry) -> bool,
    i: int,
    hit: bool,
)
    requires
        0 <= i < s0.len(),
        ignores_revoked(pred),
        now == mark_revoked(s0, |j: int| has_marked_ancestor(s0, j, pred, i)),
        revocation_closed(now),
        forall|k: int| 0 <= k < now.len() ==> #[trigger] link_ok(now, k),
        hit == (slot_used(now, i) && pred(entry_at(now, i)) && !entry_at(now, i).revoked),
        hit ==> after == revoke_spec(now, i),
        !hit ==> after == now,
    ensures
        after == mark_revoked(s0, |j: int| has_marked_ancestor(s0, j, pred, i + 1)),
{
    lemma_mark_revoked_same(s0, |j: int| has_marked_ancestor(s0, j, pred, i));
    if slot_used(s0, i) {
        assert(with_revoked(s0[i].unwrap(), false) == with_revoked(now[i].unwrap(), false));
        assert(pred(s0[i].unwrap()) == pred(with_revoked(s0[i].unwrap(), false)));
        assert(pred(now[i].unwrap()) == pred(with_revoked(now[i].unwrap(), false)));
    }
    assert forall|j: int| 0 <= j < s0.len() implies #[trigger] has_marked_ancestor(s0, j, pred, i + 1)
        == (has_marked_ancestor(s0, j, pred, i) || (slot_used(s0, i) && pred(entry_at(s0, i))
        && is_descendant(now, j, i))) by {
        lemma_marked_step(s0, j, pred, i);
        lemma_descendant_frame(s0, now, j, i);
    }
    if !hit && slot_used(s0, i) && pred(entry_at(s0, i)) {
        assert forall|j: int| 0 <= j < s0.len() && is_descendant(now, j, i) implies #[trigger] entry_at(now, j).revoked by {
            lemma_closed_descendants_revoked(now, j, i);
        }
    }
    assert(after =~= mark_revoked(s0, |j: int| has_marked_ancestor(s0, j, pred, i + 1)));
}

// ─── Operations ─────────────────────────────────────────────────

impl CapTable {
    /// The capability slots.
    pub closed spec fn view(&self) -> Seq<Option<CapEntry>> {
        self.entries@
    }

    /// The value of the active-capability counter.
    pub closed spec fn spec_active_count(&self) -> usize {
        self.active_count
    }

    /// The next capability ID that will be handed out.
    pub closed spec fn spec_next_id(&self) -> u64 {
        self.ids@
    }

    /// Well-formedness of the table.
    pub closed spec fn wf(&self) -> bool {
        &&& structure_ok(self.entries@, self.active_count, self.ids@)
        &&& revocation_closed(self.entries@)
    }

    /// Facts that every well-formed table offers its users.
    pub proof fn lemma_wf_facts(&self)
        requires
            self.wf(),
        ensures
            MAX_CAPABILITIES <= self@.len() <= MAX_SLOTS,
            self.spec_active_count() as int == active_set(self@).len(),
            active_set(self@).len() <= MAX_CAPABILITIES,
            active_set(self@).finite(),
            forall|i: int| 0 <= i < self@.len() ==> #[trigger] link_ok(self@, i),
            revocation_closed(self@),
            forall|i: int, j: int|
                0 <= i < self@.len() && 0 <= j < self@.len() && i != j && slot_used(self@, i)
                    && slot_used(self@, j) ==> #[trigger] entry_at(self@, i).id != #[trigger] entry_at(
                    self@,
                    j,
                ).id,
    {
        assert forall|i: int, j: int|
            0 <= i < self@.len() && 0 <= j < self@.len() && i != j && slot_used(self@, i)
                && slot_used(self@, j) implies #[trigger] entry_at(self@, i).id != #[trigger] entry_at(
            self@,
            j,
        ).id by {
            assert(id_ok(self@, i, self.ids@));
            assert(id_ok(self@, j, self.ids@));
        }
    }

    /// Create a new empty capability table
    pub fn new() -> (t: Self)
        ensures
            t.wf(),
            t@.len() == MAX_CAPABILITIES,
            forall|i: int| 0 <= i < t@.len() ==> t@[i] is None,
            t.spec_active_count() == 0,
    {
        let mut entries: Vec<Option<CapEntry>> = Vec::new();
        let mut k: usize = 0;
        while k < MAX_CAPABILITIES
            invariant
                k <= MAX_CAPABILITIES,
                entries@.len() == k,
                forall|i: int| 0 <= i < k ==> entries@[i] is None,
            decreases MAX_CAPABILITIES - k,
        {
            entries.push(None);
            k += 1;
        }
        let t = CapTable { entries, active_count: 0, ids: CapIdCounter::new() };
        assert(active_set(t.entries@) =~= Set::empty());
        assert forall|i: int| 0 <= i < t.entries@.len() implies #[trigger] id_ok(t.entries@, i, t.ids@) by {}
        assert forall|i: int| 0 <= i < t.entries@.len() implies #[trigger] link_ok(t.entries@, i) by {}
        assert forall|i: int| 0 <= i < t.entries@.len() implies #[trigger] revocation_closed_at(t.entries@, i) by {}
        t
    }

    /// Where a new capability goes: the first free slot, else a new slot at
    /// the end; `None` when every slot is used and no slot can be added.
    fn find_slot(&self) -> (r: Option<usize>)
        requires
            self.wf(),
        ensures
            match r {
                Some(k) => new_slot(self@, k as int) && k < MAX_SLOTS,
                None => all_slots_used(self@) && self@.len() >= MAX_SLOTS,
            },
    {
        proof {
            self.lemma_wf_facts();
        }
        let mut k: usize = 0;
        while k < self.entries.len()
            invariant
                k <= self.entries@.len(),
                self.entries@.len() <= MAX_SLOTS,
                forall|j: int| 0 <= j < k ==> self.entries@[j] is Some,
            decreases self.entries@.len() - k,
        {
            if self.entries[k].is_none() {
                return Some(k);
            }
            k += 1;
        }
        if self.entries.len() < MAX_SLOTS {
            Some(self.entries.len())
        } else {
            None
        }
    }

    /// Put a new live capability, with a fresh ID, into the first free slot `slot`.
    fn fill_slot(
        &mut self,
        slot: usize,
        resource: ResourceRef,
        rights: Rights,
        owner: AgentId,
        parent: Option<CapHandle>,
        expires_at: u64,
        created_at: u64,
    )
        requires
            old(self).wf(),
            old(self).spec_active_count() < MAX_CAPABILITIES,
            first_free(old(self)@, slot as int),
            match parent {
                Some(p) => {
                    &&& (p.0 as int) < slot
                    &&& slot_used(old(self)@, p.0 as int)
                    &&& !entry_at(old(self)@, p.0 as int).revoked
                    &&& bits_contain(entry_at(old(self)@, p.0 as int).rights@, rights@)
                    &&& resource == entry_at(old(self)@, p.0 as int).resource
                    &&& expires_at == entry_at(old(self)@, p.0 as int).expires_at
                },
                None => true,
            },
        ensures
            final(self).wf(),
            final(self)@ == old(self)@.update(
                slot as int,
                Some(
                    CapEntry {
                        id: entry_at(final(self)@, slot as int).id,
                        resource,
                        rights,
                        owner,
                        parent,
                        expires_at,
                        revoked: false,
                        created_at,
                    },
                ),
            ),
            entry_at(final(self)@, slot as int).id@ == old(self).spec_next_id(),
            final(self).spec_next_id() == next_u64(old(self).spec_next_id()),
            final(self).spec_active_count() == old(self).spec_active_count() + 1,
    {
        let ghost s = self.entries@;
        let ghost n0 = self.ids@;
        proof {
            assert(id_ok(s, slot as int, n0));
            if slot > 0 {
                assert(id_ok(s, slot - 1, n0));
            }
            assert(n0 == slot + 1);
            lemma_active_set_bounded(s);
        }
        let id = CapId::new(&mut self.ids);
        proof {
            assert(self.ids@ == slot + 2);
        }
        let e = CapEntry {
            id,
            resource,
            rights,
            owner,
            parent,
            expires_at,
            revoked: false,
            created_at,
        };
        self.entries[slot] = Some(e);
        let ghost t = self.entries@;
        proof {
            assert(active_set(t) =~= active_set(s).insert(slot as int));
            assert(!active_set(s).contains(slot as int));
            lemma_active_set_bounded(t);
        }
        self.active_count = self.active_count + 1;
        proof {
            assert(self.ids@ == (slot + 2) as u64);
            assert forall|i: int, j: int| 0 <= i < j < t.len() && #[trigger] t[j] is Some implies #[trigger] t[i] is Some by {
                if j != slot {
                    assert(s[j] is Some);
                }
            }
            assert forall|i: int| 0 <= i < t.len() implies #[trigger] link_ok(t, i) by {
                if i != slot {
                    assert(link_ok(s, i));
                    if slot_used(t, i) {
                        match entry_at(t, i).parent {
                            Some(p) => {
                                assert(p.0 as int != slot as int) by {
                                    assert(s[p.0 as int] is Some);
                                }
                            },
                            None => {},
                        }
                    }
                }
            }
            assert forall|i: int| 0 <= i < t.len() implies #[trigger] id_ok(t, i, self.ids@) by {
                assert(id_ok(s, i, n0));
                if i < slot {
                    assert(s[i] is Some);
                } else if i > slot {
                    assert(s[i] is None);
                }
            }
            assert forall|i: int| 0 <= i < t.len() implies #[trigger] revocation_closed_at(t, i) by {
                assert(revocation_closed_at(s, i));
                if i != slot && slot_used(t, i) {
                    assert(link_ok(s, i));
                }
            }
        }
    }


    /// Put a new live capability, with a fresh ID, into a new slot after the
    /// last, when every slot is used.
    fn append_slot(
        &mut self,
        resource: ResourceRef,
        rights: Rights,
        owner: AgentId,
        parent: Option<CapHandle>,
        expires_at: u64,
        created_at: u64,
    )
        requires
            old(self).wf(),
            old(self).spec_active_count() < MAX_CAPABILITIES,
            all_slots_used(old(self)@),
            old(self)@.len() < MAX_SLOTS,
            match parent {
                Some(p) => {
                    &&& slot_used(old(self)@, p.0 as int)
                    &&& !entry_at(old(self)@, p.0 as int).revoked
                    &&& bits_contain(entry_at(old(self)@, p.0 as int).rights@, rights@)
                    &&& resource == entry_at(old(self)@, p.0 as int).resource
                    &&& expires_at == entry_at(old(self)@, p.0 as int).expires_at
                },
                None => true,
            },
        ensures
            final(self).wf(),
            final(self)@ == old(self)@.push(
                Some(
                    CapEntry {
                        id: entry_at(final(self)@, old(self)@.len() as int).id,
                        resource,
                        rights,
                        owner,
                        parent,
                        expires_at,
                        revoked: false,
                        created_at,
                    },
                ),
            ),
            entry_at(final(self)@, old(self)@.len() as int).id@ == old(self).spec_next_id(),
            final(self).spec_next_id() == next_u64(old(self).spec_next_id()),
            final(self).spec_active_count() == old(self).spec_active_count() + 1,
    {
        let ghost s = self.entries@;
        let ghost n0 = self.ids@;
        let ghost slot = s.len() as int;
        proof {
            assert(id_ok(s, slot - 1, n0));
            assert(n0 == slot + 1);
            lemma_active_set_bounded(s);
        }
        let id = CapId::new(&mut self.ids);
        proof {
            assert(self.ids@ == slot + 2);
        }
        let e = CapEntry {
            id,
            resource,
            rights,
            owner,
            parent,
            expires_at,
            revoked: false,
            created_at,
        };
        self.entries.push(Some(e));
        let ghost t = self.entries@;
        proof {
            assert(active_set(t) =~= active_set(s).insert(slot));
            assert(!active_set(s).contains(slot));
            lemma_active_set_bounded(t);
        }
        self.active_count = self.active_count + 1;
        proof {
            assert forall|i: int, j: int| 0 <= i < j < t.len() && #[trigger] t[j] is Some implies #[trigger] t[i] is Some by {
                assert(s[i] is Some);
            }
            assert forall|i: int| 0 <= i < t.len() implies #[trigger] link_ok(t, i) by {
                if i != slot {
                    assert(link_ok(s, i));
                }
            }
            assert forall|i: int| 0 <= i < t.len() implies #[trigger] id_ok(t, i, self.ids@) by {
                if i != slot {
                    assert(id_ok(s, i, n0));
                }
            }
            assert forall|i: int| 0 <= i < t.len() implies #[trigger] revocation_closed_at(t, i) by {
                if i != slot {
                    assert(revocation_closed_at(s, i));
                    assert(link_ok(s, i));
                }
            }
        }
    }

    /// Put a new live capability, with a fresh ID, where `new_slot` says.
    fn place(
        &mut self,
        slot: usize,
        resource: ResourceRef,
        rights: Rights,
        owner: AgentId,
        parent: Option<CapHandle>,
        expires_at: u64,
        created_at: u64,
    )
        requires
            old(self).wf(),
            old(self).spec_active_count() < MAX_CAPABILITIES,
            new_slot(old(self)@, slot as int),
            slot < MAX_SLOTS,
            match parent {
                Some(p) => {
                    &&& (p.0 as int) < slot
                    &&& slot_used(old(self)@, p.0 as int)
                    &&& !entry_at(old(self)@, p.0 as int).revoked
                    &&& bits_contain(entry_at(old(self)@, p.0 as int).rights@, rights@)
                    &&& resource == entry_at(old(self)@, p.0 as int).resource
                    &&& expires_at == entry_at(old(self)@, p.0 as int).expires_at
                },
                None => true,
            },
        ensures
            final(self).wf(),
            final(self)@ == put_slot(
                old(self)@,
                slot as int,
                CapEntry {
                    id: entry_at(final(self)@, slot as int).id,
                    resource,
                    rights,
                    owner,
                    parent,
                    expires_at,
                    revoked: false,
                    created_at,
                },
            ),
            entry_at(final(self)@, slot as int).id@ == old(self).spec_next_id(),
            final(self).spec_next_id() == next_u64(old(self).spec_next_id()),
            final(self).spec_active_count() == old(self).spec_active_count() + 1,
    {
        if slot < self.entries.len() {
            self.fill_slot(slot, resource, rights, owner, parent, expires_at, created_at);
        } else {
            self.append_slot(resource, rights, owner, parent, expires_at, created_at);
        }
    }

    /// Check if a handle is valid and has the required rights
    pub fn check(&self, handle: CapHandle, required: Rights, current_tick: u64) -> (r: Result<
        &CapEntry,
        CapError,
    >)
        ensures
            match r {
                Ok(e) => check_outcome(self@, handle.0 as int, required@, current_tick) is Ok
                    && *e == entry_at(self@, handle.0 as int),
                Err(err) => check_outcome(self@, handle.0 as int, required@, current_tick) == Err::<
                    (),
                    CapError,
                >(err),
            },
    {
        let idx = handle.0 as usize;
        if idx >= self.entries.len() {
            return Err(CapError::InvalidHandle);
        }
        let entry = match &self.entries[idx] {
            Some(e) => e,
            None => return Err(CapError::InvalidHandle),
        };
        if entry.revoked {
            return Err(CapError::Revoked);
        }
        if entry.expires_at > 0 && current_tick >= entry.expires_at {
            return Err(CapError::Expired);
        }
        if !entry.rights.contains(required) {
            return Err(CapError::InsufficientRights);
        }
        Ok(entry)
    }

    /// The revocation walk: revoke `handle` when live, then every live
    /// capability delegated from it.
    fn revoke_cascade(&mut self, handle: CapHandle) -> (r: Result<(), CapError>)
        requires
            structure_ok(old(self).entries@, old(self).active_count, old(self).ids@),
        ensures
            structure_ok(final(self).entries@, final(self).active_count, final(self).ids@),
            final(self).ids@ == old(self).ids@,
            r is Err <==> !slot_used(old(self)@, handle.0 as int),
            r matches Err(e) ==> e == CapError::InvalidHandle && final(self)@ == old(self)@,
            r is Ok ==> final(self)@ == mark_revoked(
                old(self)@,
                |j: int| cascade_reach(old(self)@, j, handle.0 as int),
            ),
        decreases MAX_SLOTS - handle.0,
    {
        let ghost s0 = self.entries@;
        let ghost h = handle.0 as int;
        let idx = handle.0 as usize;
        if idx >= self.entries.len() {
            return Err(CapError::InvalidHandle);
        }
        let already = match &self.entries[idx] {
            Some(e) => e.revoked,
            None => return Err(CapError::InvalidHandle),
        };
        if already {
            proof {
                assert forall|j: int| 0 <= j < s0.len() implies !cascade_reach(s0, j, h) by {
                    if cascade_reach(s0, j, h) {
                        lemma_reach_root(s0, j, h);
                    }
                }
                assert(s0 =~= mark_revoked(s0, |j: int| cascade_reach(s0, j, h)));
            }
            return Ok(());
        }
        let mut e = self.entries[idx].unwrap();
        e.revoked = true;
        self.entries[idx] = Some(e);
        proof {
            lemma_active_set_revoke_one(s0, self.entries@, h);
        }
        self.active_count = self.active_count.saturating_sub(1);
        proof {
            assert forall|j: int| 0 <= j < s0.len() && cascade_reach(s0, j, h) && j != h implies #[trigger] top_child(s0, j, h) >= 0 by {
                lemma_reach_top_child(s0, j, h);
            }
            assert(self.entries@ =~= mark_revoked(
                s0,
                |j: int| cascade_reach(s0, j, h) && (j == h || top_child(s0, j, h) < 0),
            ));
            lemma_mark_revoked_same(s0, |j: int| cascade_reach(s0, j, h) && (j == h || top_child(s0, j, h) < 0));
            lemma_same_but_revoked_links(s0, self.entries@, self.ids@);
            assert(cascade_reach(s0, h, h));
        }
        let mut i: usize = 0;
        while i < self.entries.len()
            invariant
                0 <= h < s0.len(),
                s0.len() == self.entries@.len(),
                handle.0 as int == h,
                i <= s0.len(),
                structure_ok(s0, old(self).active_count, old(self).ids@),
                is_live(s0, h),
                structure_ok(self.entries@, self.active_count, self.ids@),
                self.ids@ == old(self).ids@,
                same_but_revoked(s0, self.entries@),
                self.entries@ == mark_revoked(
                    s0,
                    |j: int| cascade_reach(s0, j, h) && (j == h || top_child(s0, j, h) < i),
                ),
            decreases s0.len() - i,
        {
            let ghost now = self.entries@;
            let is_child = match &self.entries[i] {
                Some(child) => child.parent == Some(handle) && !child.revoked,
                None => false,
            };
            if is_child {
                proof {
                    assert(link_ok(now, i as int));
                    assert(with_revoked(s0[i as int].unwrap(), false) == with_revoked(now[i as int].unwrap(), false));
                    assert(entry_at(s0, i as int).parent == Some(handle));
                    assert(h < i);
                    assert forall|k: int| #[trigger] is_descendant(s0, k, i as int) implies s0[k] == now[k] by {
                        lemma_desc_of_child(s0, k, h, i as int);
                        lemma_desc_ge(s0, k, i as int);
                    }
                }
                let _ = self.revoke_cascade(CapHandle(i as u32));
                proof {
                    let after = self.entries@;
                    assert forall|j: int| 0 <= j < s0.len() implies #[trigger] cascade_reach(now, j, i as int)
                        == (cascade_reach(s0, j, h) && j != h && top_child(s0, j, h) == i) by {
                        lemma_reach_frame(s0, now, j, i as int);
                        lemma_reach_through_child(s0, j, h, i as int);
                    }
                    assert(after =~= mark_revoked(
                        s0,
                        |j: int| cascade_reach(s0, j, h) && (j == h || top_child(s0, j, h) < i + 1),
                    ));
                    lemma_mark_revoked_same(s0, |j: int| cascade_reach(s0, j, h) && (j == h || top_child(s0, j, h) < i + 1));
                }
            } else {
                proof {
                    assert forall|j: int| 0 <= j < s0.len() && cascade_reach(s0, j, h) && j != h implies #[trigger] top_child(s0, j, h) != i by {
                        lemma_reach_top_child(s0, j, h);
                        let c = top_child(s0, j, h);
                        if c == i {
                            assert(with_revoked(s0[c].unwrap(), false) == with_revoked(now[c].unwrap(), false));
                            assert(top_child(s0, c, h) == c);
                        }
                    }
                    assert(self.entries@ =~= mark_revoked(
                        s0,
                        |j: int| cascade_reach(s0, j, h) && (j == h || top_child(s0, j, h) < i + 1),
                    ));
                }
            }
            i += 1;
        }
        proof {
            assert forall|j: int| 0 <= j < s0.len() && cascade_reach(s0, j, h) && j != h implies #[trigger] top_child(s0, j, h) < s0.len() by {
                lemma_reach_top_child(s0, j, h);
            }
            assert(self.entries@ =~= mark_revoked(s0, |j: int| cascade_reach(s0, j, h)));
        }
        Ok(())
    }

    /// Revoke a capability and ALL its delegated children
    pub fn revoke(&mut self, handle: CapHandle) -> (r: Result<(), CapError>)
        requires
            old(self).wf(),
        ensures
            final(self).wf(),
            r is Err <==> !slot_used(old(self)@, handle.0 as int),
            r matches Err(e) ==> e == CapError::InvalidHandle && final(self)@ == old(self)@,
            r is Ok ==> final(self)@ == revoke_spec(old(self)@, handle.0 as int),
            final(self).spec_active_count() as int == active_set(final(self)@).len(),
            final(self).spec_next_id() == old(self).spec_next_id(),
    {
        let ghost s0 = self.entries@;
        let ghost h = handle.0 as int;
        let r = self.revoke_cascade(handle);
        proof {
            if r is Ok {
                let t = self.entries@;
                assert forall|j: int| 0 <= j < s0.len() && s0[j] is Some implies (entry_at(s0, j).revoked
                    || cascade_reach(s0, j, h)) == (entry_at(s0, j).revoked || is_descendant(s0, j, h)) by {
                    if is_live(s0, h) {
                        lemma_reach_is_live_desc(s0, j, h);
                    } else {
                        if cascade_reach(s0, j, h) {
                            lemma_reach_root(s0, j, h);
                        }
                        if is_descendant(s0, j, h) {
                            lemma_closed_descendants_revoked(s0, j, h);
                        }
                    }
                }
                assert(t =~= revoke_spec(s0, h));
                assert forall|i: int| 0 <= i < t.len() implies #[trigger] revocation_closed_at(t, i) by {
                    assert(revocation_closed_at(s0, i));
                    assert(link_ok(s0, i));
                    if slot_used(t, i) {
                        match entry_at(s0, i).parent {
                            Some(p) => {},
                            None => {},
                        }
                    }
                }
            }
        }
        r
    }

    /// Delegate: create a child capability with equal or fewer rights
    pub fn delegate(
        &mut self,
        parent_handle: CapHandle,
        new_owner: AgentId,
        new_rights: Rights,
        current_tick: u64,
    ) -> (r: Result<CapHandle, CapError>)
        requires
            old(self).wf(),
        ensures
            final(self).wf(),
            delegate_outcome(old(self)@, parent_handle.0 as int, new_rights@, current_tick) matches Err(
                e,
            ) ==> r == Err::<CapHandle, CapError>(e),
            delegate_outcome(old(self)@, parent_handle.0 as int, new_rights@, current_tick) is Ok
                && table_full(old(self)@) ==> r == Err::<CapHandle, CapError>(CapError::TableFull),
            r is Err ==> final(self)@ == old(self)@ && final(self).spec_active_count()
                == old(self).spec_active_count(),
            r is Ok <==> delegate_outcome(old(self)@, parent_handle.0 as int, new_rights@, current_tick)
                is Ok && !table_full(old(self)@),
            r matches Ok(h) ==> {
                let p = entry_at(old(self)@, parent_handle.0 as int);
                &&& new_slot(old(self)@, h.0 as int)
                &&& final(self)@ == put_slot(
                    old(self)@,
                    h.0 as int,
                    CapEntry {
                        id: entry_at(final(self)@, h.0 as int).id,
                        resource: p.resource,
                        rights: new_rights,
                        owner: new_owner,
                        parent: Some(parent_handle),
                        expires_at: p.expires_at,
                        revoked: false,
                        created_at: current_tick,
                    },
                )
                &&& entry_at(final(self)@, h.0 as int).id@ == old(self).spec_next_id()
                &&& final(self).spec_active_count() == old(self).spec_active_count() + 1
            },
    {
        let (resource, expires_at, parent_rights) = match self.check(
            parent_handle,
            Rights::empty(),
            current_tick,
        ) {
            Ok(parent) => (parent.resource, parent.expires_at, parent.rights),
            Err(e) => {
                proof {
                    if slot_used(self@, parent_handle.0 as int) {
                        lemma_contains_empty(entry_at(self@, parent_handle.0 as int).rights@);
                    }
                }
                return Err(e);
            },
        };
        // Cannot escalate
        if !parent_rights.contains(new_rights) {
            return Err(CapError::EscalationDenied);
        }
        let resource = resource.clone();
        proof {
            self.lemma_wf_facts();
            lemma_active_set_bounded(self@);
        }
        if self.active_count >= MAX_CAPABILITIES {
            return Err(CapError::TableFull);
        }
        let slot = match self.find_slot() {
            Some(k) => k,
            None => return Err(CapError::TableFull),
        };
        proof {
            assert(self.entries@[parent_handle.0 as int] is Some);
            if slot < self.entries@.len() {
                assert(parent_handle.0 < slot) by {
                    if parent_handle.0 >= slot {
                        assert(self.entries@[slot as int] is None);
                    }
                }
            }
        }
        self.place(
            slot,
            resource,
            new_rights,
            new_owner,
            Some(parent_handle),
            expires_at,
            current_tick,
        );
        Ok(CapHandle(slot as u32))
    }

    /// Revoke ALL capabilities owned by an agent (used when killing agents)
    pub fn revoke_all_for_agent(&mut self, agent: AgentId)
        requires
            old(self).wf(),
        ensures
            final(self).wf(),
            final(self)@ == revoke_where_spec(old(self)@, |e: CapEntry| e.owner == agent),
            final(self).spec_next_id() == old(self).spec_next_id(),
    {
        let ghost pred = |e: CapEntry| e.owner == agent;
        let ghost s0 = self.entries@;
        proof {
            assert(self.entries@ =~= mark_revoked(s0, |j: int| has_marked_ancestor(s0, j, pred, 0))) by {
                assert forall|j: int| 0 <= j < s0.len() implies !has_marked_ancestor(s0, j, pred, 0) by {
                    lemma_marked_none_below_zero(s0, j, pred);
                }
            }
        }
        let mut i: usize = 0;
        while i < self.entries.len()
            invariant
                i <= s0.len(),
                s0.len() == self.entries@.len(),
                s0.len() <= MAX_SLOTS,
                self.wf(),
                self.spec_next_id() == old(self).spec_next_id(),
                ignores_revoked(pred),
                forall|e: CapEntry| #[trigger] pred(e) == (e.owner == agent),
                self.entries@ == mark_revoked(s0, |j: int| has_marked_ancestor(s0, j, pred, i as int)),
            decreases s0.len() - i,
        {
            let ghost now = self.entries@;
            let hit = match &self.entries[i] {
                Some(entry) => entry.owner == agent && !entry.revoked,
                None => false,
            };
            if hit {
                let _ = self.revoke(CapHandle(i as u32));
            }
            proof {
                lemma_revoke_where_step(s0, now, self.entries@, pred, i as int, hit);
            }
            i += 1;
        }
    }

    /// Get current number of active capabilities
    pub fn active_count(&self) -> (n: usize)
        requires
            self.wf(),
        ensures
            n as int == active_set(self@).len(),
            n <= MAX_CAPABILITIES,
    {
        self.active_count
    }

    /// Garbage collect expired capabilities
    pub fn gc_expired(&mut self, current_tick: u64)
        requires
            old(self).wf(),
        ensures
            final(self).wf(),
            final(self)@ == revoke_where_spec(old(self)@, |e: CapEntry| expired_at(e, current_tick)),
            final(self).spec_next_id() == old(self).spec_next_id(),
    {
        let ghost pred = |e: CapEntry| expired_at(e, current_tick);
        let ghost s0 = self.entries@;
        proof {
            assert(self.entries@ =~= mark_revoked(s0, |j: int| has_marked_ancestor(s0, j, pred, 0))) by {
                assert forall|j: int| 0 <= j < s0.len() implies !has_marked_ancestor(s0, j, pred, 0) by {
                    lemma_marked_none_below_zero(s0, j, pred);
                }
            }
        }
        let mut i: usize = 0;
        while i < self.entries.len()
            invariant
                i <= s0.len(),
                s0.len() == self.entries@.len(),
                s0.len() <= MAX_SLOTS,
                self.wf(),
                self.spec_next_id() == old(self).spec_next_id(),
                ignores_revoked(pred),
                forall|e: CapEntry| #[trigger] pred(e) == expired_at(e, current_tick),
                self.entries@ == mark_revoked(s0, |j: int| has_marked_ancestor(s0, j, pred, i as int)),
            decreases s0.len() - i,
        {
            let ghost now = self.entries@;
            let hit = match &self.entries[i] {
                Some(entry) => entry.expires_at > 0 && current_tick >= entry.expires_at
                    && !entry.revoked,
                None => false,
            };
            if hit {
                let _ = self.revoke(CapHandle(i as u32));
            }
            proof {
                lemma_revoke_where_step(s0, now, self.entries@, pred, i as int, hit);
            }
            i += 1;
        }
    }

    /// Grant a new capability to an agent
    pub fn grant(
        &mut self,
        agent: AgentId,
        resource: ResourceRef,
        rights: Rights,
        expires_at: u64,
        current_tick: u64,
    ) -> (r: Result<CapHandle, CapError>)
        requires
            old(self).wf(),
        ensures
            final(self).wf(),
            r is Err <==> table_full(old(self)@),
            r matches Err(e) ==> e == CapError::TableFull && final(self)@ == old(self)@
                && final(self).spec_active_count() == old(self).spec_active_count(),
            r matches Ok(h) ==> {
                &&& new_slot(old(self)@, h.0 as int)
                &&& final(self)@ == put_slot(
                    old(self)@,
                    h.0 as int,
                    CapEntry {
                        id: entry_at(final(self)@, h.0 as int).id,
                        resource,
                        rights,
                        owner: agent,
                        parent: None,
                        expires_at,
                        revoked: false,
                        created_at: current_tick,
                    },
                )
                &&& entry_at(final(self)@, h.0 as int).id@ == old(self).spec_next_id()
                &&& final(self).spec_active_count() == old(self).spec_active_count() + 1
            },
    {
        if self.active_count >= MAX_CAPABILITIES {
            return Err(CapError::TableFull);
        }
        let slot = match self.find_slot() {
            Some(k) => k,
            None => return Err(CapError::TableFull),
        };
        self.place(slot, resource, rights, agent, None, expires_at, current_tick);
        Ok(CapHandle(slot as u32))
    }
}

/// Marked ancestry depends only on the structure, when `pred` ignores the revoked flag.
proof fn lemma_marked_ancestor_frame(
    a: Seq<Option<CapEntry>>,
    b: Seq<Option<CapEntry>>,
    j: int,
    pred: spec_fn(CapEntry) -> bool,
    bound: int,
)
    requires
        same_but_revoked(a, b),
        ignores_revoked(pred),
    ensures
        has_marked_ancestor(a, j, pred, bound) == has_marked_ancestor(b, j, pred, bound),
    decreases j,
{
    if slot_used(a, j) {
        assert(pred(a[j].unwrap()) == pred(with_revoked(a[j].unwrap(), false)));
        assert(pred(b[j].unwrap()) == pred(with_revoked(b[j].unwrap(), false)));
        assert(with_revoked(a[j].unwrap(), false).parent == a[j].unwrap().parent);
        assert(with_revoked(b[j].unwrap(), false).parent == b[j].unwrap().parent);
        match entry_at(a, j).parent {
            Some(p) => {
                if 0 <= (p.0 as int) < j {
                    lemma_marked_ancestor_frame(a, b, p.0 as int, pred, bound);
                }
            },
            None => {},
        }
    }
}

/// An ancestor marked by `p1 || p2` is one marked by `p1` or by `p2`.
proof fn lemma_marked_ancestor_or(
    s: Seq<Option<CapEntry>>,
    j: int,
    p1: spec_fn(CapEntry) -> bool,
    p2: spec_fn(CapEntry) -> bool,
    bound: int,
)
    ensures
        has_marked_ancestor(s, j, |e: CapEntry| p1(e) || p2(e), bound) == (has_marked_ancestor(
            s,
            j,
            p1,
            bound,
        ) || has_marked_ancestor(s, j, p2, bound)),
    decreases j,
{
    if slot_used(s, j) {
        match entry_at(s, j).parent {
            Some(p) => {
                if 0 <= (p.0 as int) < j {
                    lemma_marked_ancestor_or(s, p.0 as int, p1, p2, bound);
                }
            },
            None => {},
        }
    }
}

/// Two sweeps, by `p1` then by `p2`, revoke what one sweep by `p1 || p2` revokes.
pub proof fn lemma_revoke_where_compose(
    s: Seq<Option<CapEntry>>,
    p1: spec_fn(CapEntry) -> bool,
    p2: spec_fn(CapEntry) -> bool,
)
    requires
        ignores_revoked(p1),
        ignores_revoked(p2),
    ensures
        revoke_where_spec(revoke_where_spec(s, p1), p2) == revoke_where_spec(
            s,
            |e: CapEntry| p1(e) || p2(e),
        ),
{
    let t = revoke_where_spec(s, p1);
    lemma_mark_revoked_same(s, |j: int| has_marked_ancestor(s, j, p1, s.len() as int));
    assert forall|j: int| 0 <= j < s.len() implies #[trigger] has_marked_ancestor(t, j, p2, t.len() as int)
        == has_marked_ancestor(s, j, p2, s.len() as int) by {
        lemma_marked_ancestor_frame(s, t, j, p2, s.len() as int);
    }
    let por = |e: CapEntry| p1(e) || p2(e);
    assert forall|j: int| 0 <= j < s.len() implies #[trigger] has_marked_ancestor(s, j, por, s.len() as int)
        == (has_marked_ancestor(s, j, p1, s.len() as int) || has_marked_ancestor(s, j, p2, s.len() as int)) by {
        lemma_marked_ancestor_or(s, j, p1, p2, s.len() as int);
    }
    assert(revoke_where_spec(t, p2) =~= revoke_where_spec(s, por));
}

/// A sweep by a predicate that marks nothing changes nothing.
pub proof fn lemma_revoke_where_nothing(s: Seq<Option<CapEntry>>, p: spec_fn(CapEntry) -> bool)
    requires
        forall|e: CapEntry| !#[trigger] p(e),
    ensures
        revoke_where_spec(s, p) == s,
{
    assert forall|j: int| 0 <= j < s.len() implies !#[trigger] has_marked_ancestor(s, j, p, s.len() as int) by {
        lemma_marked_none(s, j, p);
    }
    assert(revoke_where_spec(s, p) =~= s);
}

/// Nothing is marked by a predicate that holds of no capability.
proof fn lemma_marked_none(s: Seq<Option<CapEntry>>, j: int, p: spec_fn(CapEntry) -> bool)
    requires
        forall|e: CapEntry| !#[trigger] p(e),
    ensures
        !has_marked_ancestor(s, j, p, s.len() as int),
    decreases j,
{
    if slot_used(s, j) {
        assert(!p(entry_at(s, j)));
        match entry_at(s, j).parent {
            Some(q) => {
                if 0 <= (q.0 as int) < j {
                    lemma_marked_none(s, q.0 as int, p);
                }
            },
            None => {},
        }
    }
}

/// Sweeps by predicates that agree on every capability revoke the same.
pub proof fn lemma_revoke_where_same_pred(
    s: Seq<Option<CapEntry>>,
    p1: spec_fn(CapEntry) -> bool,
    p2: spec_fn(CapEntry) -> bool,
)
    requires
        forall|e: CapEntry| #[trigger] p1(e) == p2(e),
    ensures
        revoke_where_spec(s, p1) == revoke_where_spec(s, p2),
{
    assert(p1 =~= p2);
}

// ─── Laws ───────────────────────────────────────────────────────

/// At most `MAX_CAPABILITIES` capabilities are active: every table that
/// `new` makes and `grant`, `delegate`, `revoke`, `revoke_all_for_agent` and
/// `gc_expired` keep well-formed counts its live capabilities exactly, and
/// there are never more than 4096 of them.
pub proof fn lemma_active_at_most_max(t: &CapTable)
    requires
        t.wf(),
    ensures
        t.spec_active_count() as int == active_set(t@).len(),
        active_set(t@).len() <= MAX_CAPABILITIES,
{
    t.lemma_wf_facts();
}

/// Delegation never escalates: in a well-formed table every capability
/// delegated (directly or through a chain) from `h` grants no right that
/// `h` does not grant, refers to the same resource, and expires with it.
pub proof fn lemma_delegation_never_escalates(t: &CapTable, j: int, h: int)
    requires
        t.wf(),
        is_descendant(t@, j, h),
    ensures
        bits_contain(entry_at(t@, h).rights@, entry_at(t@, j).rights@),
        entry_at(t@, j).resource == entry_at(t@, h).resource,
        entry_at(t@, j).expires_at == entry_at(t@, h).expires_at,
    decreases j,
{
    t.lemma_wf_facts();
    if j == h {
        lemma_contains_reflexive(entry_at(t@, h).rights@);
    } else {
        assert(link_ok(t@, j));
        let p = entry_at(t@, j).parent.unwrap().0 as int;
        lemma_delegation_never_escalates(t, p, h);
        lemma_contains_transitive(entry_at(t@, h).rights@, entry_at(t@, p).rights@, entry_at(t@, j).rights@);
    }
}

/// Revoking a capability revokes everything delegated from it: afterwards a
/// check of any such capability fails with `Revoked`, whatever is asked.
pub proof fn lemma_revoke_cascades(s: Seq<Option<CapEntry>>, h: int, j: int, required: u32, tick: u64)
    requires
        is_descendant(s, j, h),
    ensures
        check_outcome(revoke_spec(s, h), j, required, tick) == Err::<(), CapError>(CapError::Revoked),
{
}

/// Revocation is permanent: no capability revoked before a revoke is live after it.
pub proof fn lemma_revoke_keeps_revoked(s: Seq<Option<CapEntry>>, h: int, j: int)
    requires
        slot_used(s, j),
        entry_at(s, j).revoked,
    ensures
        entry_at(revoke_spec(s, h), j).revoked,
{
}

/// A freshly granted capability passes a check for any subset of its rights
/// until it expires.
pub proof fn lemma_grant_then_check(
    s: Seq<Option<CapEntry>>,
    h: int,
    e: CapEntry,
    required: u32,
    tick: u64,
)
    requires
        0 <= h <= s.len(),
        !e.revoked,
        bits_contain(e.rights@, required),
        e.expires_at == 0 || tick < e.expires_at,
    ensures
        check_outcome(put_slot(s, h, e), h, required, tick) is Ok,
{
}

/// A garbage-collection sweep revokes every expired capability.
pub proof fn lemma_gc_revokes_expired(s: Seq<Option<CapEntry>>, j: int, tick: u64)
    requires
        slot_used(s, j),
        expired_at(entry_at(s, j), tick),
    ensures
        entry_at(revoke_where_spec(s, |e: CapEntry| expired_at(e, tick)), j).revoked,
{
}

/// Revoking everything an agent owns leaves it no live capability.
pub proof fn lemma_revoke_all_leaves_none(s: Seq<Option<CapEntry>>, j: int, agent: AgentId)
    requires
        slot_used(s, j),
        entry_at(s, j).owner == agent,
    ensures
        !is_live(revoke_where_spec(s, |e: CapEntry| e.owner == agent), j),
{
}

} // verus!

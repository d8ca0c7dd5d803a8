//! Capability type definitions: rights, identifiers and typed tokens.

use core::marker::PhantomData;
use vstd::prelude::*;

verus! {

// ─── Rights ─────────────────────────────────────────────────────

/// Bit of the READ right.
pub const RIGHT_READ: u32 = 0x01;
/// Bit of the WRITE right.
pub const RIGHT_WRITE: u32 = 0x02;
/// Bit of the EXECUTE right.
pub const RIGHT_EXECUTE: u32 = 0x04;
/// Bit of the GRANT right (permission to delegate).
pub const RIGHT_GRANT: u32 = 0x08;
/// Bit of the CREATE right.
pub const RIGHT_CREATE: u32 = 0x10;
/// Bit of the DELETE right.
pub const RIGHT_DELETE: u32 = 0x20;
/// All defined right bits.
pub const RIGHTS_ALL_BITS: u32 = 0x3F;

/// `a` grants every right that `b` grants (bitwise superset).
pub open spec fn bits_contain(a: u32, b: u32) -> bool {
    a & b == b
}

/// Access rights that can be granted via a capability: a set of bits.
#[derive(Debug, Clone, Copy, PartialEq, Eq, Structural)]
pub struct Rights {
    bits: u32,
}

impl View for Rights {
    type V = u32;

    closed spec fn view(&self) -> u32 {
        self.bits
    }
}

impl Rights {
    /// Rights from raw bits; bits that name no right are dropped.
    pub fn from_bits_truncate(bits: u32) -> (r: Rights)
        ensures
            r@ == bits & RIGHTS_ALL_BITS,
    {
        Rights { bits: bits & RIGHTS_ALL_BITS }
    }

    /// The raw bits of this set of rights.
    pub fn bits(&self) -> (b: u32)
        ensures
            b == self@,
    {
        self.bits
    }

    /// No rights at all.
    pub fn empty() -> (r: Rights)
        ensures
            r@ == 0,
    {
        Rights { bits: 0 }
    }

    /// Every defined right.
    pub fn all() -> (r: Rights)
        ensures
            r@ == RIGHTS_ALL_BITS,
    {
        Rights { bits: RIGHTS_ALL_BITS }
    }

    /// Permission to read data.
    pub fn read() -> (r: Rights)
        ensures
            r@ == RIGHT_READ,
    {
        Rights { bits: RIGHT_READ }
    }

    /// Permission to write/modify data.
    pub fn write() -> (r: Rights)
        ensures
            r@ == RIGHT_WRITE,
    {
        Rights { bits: RIGHT_WRITE }
    }

    /// Permission to execute code.
    pub fn execute() -> (r: Rights)
        ensures
            r@ == RIGHT_EXECUTE,
    {
        Rights { bits: RIGHT_EXECUTE }
    }

    /// Permission to delegate this capability to a sub-agent.
    pub fn grant() -> (r: Rights)
        ensures
            r@ == RIGHT_GRANT,
    {
        Rights { bits: RIGHT_GRANT }
    }

    /// Permission to create new resources of this type.
    pub fn create() -> (r: Rights)
        ensures
            r@ == RIGHT_CREATE,
    {
        Rights { bits: RIGHT_CREATE }
    }

    /// Permission to destroy/delete resources.
    pub fn delete() -> (r: Rights)
        ensures
            r@ == RIGHT_DELETE,
    {
        Rights { bits: RIGHT_DELETE }
    }

    /// The union of two sets of rights.
    pub fn union(self, other: Rights) -> (r: Rights)
        ensures
            r@ == self@ | other@,
    {
        Rights { bits: self.bits | other.bits }
    }

    /// Does `self` grant every right that `other` grants?
    pub fn contains(&self, other: Rights) -> (r: bool)
        ensures
            r == bits_contain(self@, other@),
    {
        self.bits & other.bits == other.bits
    }
}

/// Containment of rights is reflexive.
pub proof fn lemma_contains_reflexive(a: u32)
    ensures
        bits_contain(a, a),
{
    assert(a & a == a) by (bit_vector);
}

/// Containment of rights is transitive: what grants `b` grants all that `b` grants.
pub proof fn lemma_contains_transitive(a: u32, b: u32, c: u32)
    requires
        bits_contain(a, b),
        bits_contain(b, c),
    ensures
        bits_contain(a, c),
{
    assert((a & b == b && b & c == c) ==> a & c == c) by (bit_vector);
}

/// Every set of rights contains the empty set.
pub proof fn lemma_contains_empty(a: u32)
    ensures
        bits_contain(a, 0),
{
    assert(a & 0 == 0) by (bit_vector);
}

// ─── Capability ID ──────────────────────────────────────────────

/// Globally unique capability identifier
#[derive(Debug, Clone, Copy, PartialEq, Eq, Structural, Hash)]
pub struct CapId(u64);

impl View for CapId {
    type V = u64;

    closed spec fn view(&self) -> u64 {
        self.0
    }
}

/// The value that follows `n` on a 64-bit counter that wraps at the top.
pub open spec fn next_u64(n: u64) -> u64 {
    if n == u64::MAX {
        0
    } else {
        (n + 1) as u64
    }
}

/// Monotonic source of capability IDs, starting at 1.
pub struct CapIdCounter {
    next: u64,
}

impl View for CapIdCounter {
    type V = u64;

    closed spec fn view(&self) -> u64 {
        self.next
    }
}

impl CapIdCounter {
    /// A fresh counter; the first ID it hands out is 1.
    pub fn new() -> (c: CapIdCounter)
        ensures
            c@ == 1,
    {
        CapIdCounter { next: 1 }
    }
}

impl CapId {
    /// Take the next unique capability ID from `counter`.
    pub fn new(counter: &mut CapIdCounter) -> (id: CapId)
        ensures
            id@ == old(counter)@,
            final(counter)@ == next_u64(old(counter)@),
    {
        let id = CapId(counter.next);
        counter.next = counter.next.wrapping_add(1);
        id
    }

    /// Get the raw ID value
    pub fn as_u64(&self) -> (v: u64)
        ensures
            v == self@,
    {
        self.0
    }
}

// ─── Capability Marker Types ────────────────────────────────────

/// Memory access capability — controls allocation, read, write
pub struct CapMemory;

/// Port I/O capability — controls access to hardware ports
pub struct CapIO;

/// Code execution capability — controls what code an agent can run
pub struct CapExec;

/// Network capability — controls network socket creation and I/O
pub struct CapNet;

/// Filesystem capability — controls file/directory access
pub struct CapFS;

/// Agent meta-capability — controls what an AI agent is allowed to do
pub struct CapAgent;

/// IRQ capability — controls which interrupts an agent can handle
pub struct CapIRQ;

/// Device capability — controls access to hardware devices (GPU, NPU, etc.)
pub struct CapDevice;

// ─── Capability Token ───────────────────────────────────────────

/// A capability token granting specific rights over a typed resource.
/// The type parameter `T` names the kind of resource it controls.
pub struct Capability<T> {
    id: CapId,
    rights: Rights,
    _type: PhantomData<T>,
}

impl<T> Capability<T> {
    /// The identifier of this token.
    pub closed spec fn spec_id(&self) -> CapId {
        self.id
    }

    /// The rights of this token.
    pub closed spec fn spec_rights(&self) -> Rights {
        self.rights
    }

    /// Create a new capability with the given rights, taking its ID from `ids`.
    pub fn new(rights: Rights, ids: &mut CapIdCounter) -> (c: Self)
        ensures
            c.spec_rights() == rights,
            c.spec_id()@ == old(ids)@,
            final(ids)@ == next_u64(old(ids)@),
            old(ids)@ < u64::MAX ==> c.spec_id()@ < final(ids)@,
    {
        Capability { id: CapId::new(ids), rights, _type: PhantomData }
    }

    /// Get this capability's unique ID
    pub fn id(&self) -> (id: CapId)
        ensures
            id == self.spec_id(),
    {
        self.id
    }

    /// Get the rights granted by this capability
    pub fn rights(&self) -> (r: Rights)
        ensures
            r == self.spec_rights(),
    {
        self.rights
    }

    /// Check if this capability grants a specific right
    pub fn has_right(&self, right: Rights) -> (b: bool)
        ensures
            b == bits_contain(self.spec_rights()@, right@),
    {
        self.rights.contains(right)
    }

    /// Create an attenuated (reduced-rights) copy for delegation: `None`
    /// when the requested rights exceed our own. The copy takes the next ID
    /// of `ids`, so it differs from ours whenever ours came earlier from the
    /// same counter.
    pub fn attenuate(&self, new_rights: Rights, ids: &mut CapIdCounter) -> (r: Option<
        Capability<T>,
    >)
        ensures
            r is Some <==> bits_contain(self.spec_rights()@, new_rights@),
            r matches Some(c) ==> c.spec_rights() == new_rights && c.spec_id()@ == old(ids)@,
            r matches Some(c) ==> (self.spec_id()@ < old(ids)@ ==> c.spec_id() != self.spec_id()),
            r matches Some(c) ==> (old(ids)@ < u64::MAX ==> c.spec_id()@ < final(ids)@),
            r is Some ==> final(ids)@ == next_u64(old(ids)@),
            r is None ==> final(ids)@ == old(ids)@,
    {
        if self.rights.contains(new_rights) {
            Some(Capability { id: CapId::new(ids), rights: new_rights, _type: PhantomData })
        } else {
            None
        }
    }
}

/// An attenuated token never grants more than the token it came from.
pub proof fn lemma_attenuate_never_escalates<T>(parent: Capability<T>, child: Capability<T>, new_rights: Rights)
    requires
        bits_contain(parent.spec_rights()@, new_rights@),
        child.spec_rights() == new_rights,
    ensures
        forall|r: u32| bits_contain(child.spec_rights()@, r) ==> bits_contain(parent.spec_rights()@, r),
{
    assert forall|r: u32| bits_contain(child.spec_rights()@, r) implies bits_contain(parent.spec_rights()@, r) by {
        lemma_contains_transitive(parent.spec_rights()@, child.spec_rights()@, r);
    }
}

} // verus!

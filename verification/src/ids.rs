//! The identities the world is keyed by, as plain values.
//!
//! A region-scoped object id is a circuit and a region-local id; every map of
//! the object graph is keyed by the two packed into one `u64`. Grid-wide keys
//! (agents, objects, textures) are their 128-bit UUID value, and a scene entity
//! is the 64-bit handle the engine gives it.

use vstd::prelude::*;

verus! {

/// A grid-wide identifier: the 128-bit value of a UUID.
pub type Uuid = u128;

/// The grid-wide id of an agent (an avatar).
pub type AgentKey = u128;

/// The grid-wide id of an object.
pub type ObjectKey = u128;

/// The grid-wide id of a texture asset.
pub type TextureKey = u128;

/// The handle of a scene entity.
pub type Entity = u64;

/// The handle of a region (its packed global corner).
pub type RegionHandle = u64;

/// An object's region-scoped id: the circuit of the region that streamed it and
/// the id that region gave it.
#[derive(Clone, Copy, Debug, PartialEq, Eq, Structural)]
pub struct ScopedObjectId {
    /// The circuit (region connection) the id belongs to.
    pub circuit: u32,
    /// The region-local object id.
    pub id: u32,
}

/// The packing of a circuit and a region-local id into one map key.
pub open spec fn pack(circuit: u32, id: u32) -> u64 {
    (circuit as int * 0x1_0000_0000 + id as int) as u64
}

impl ScopedObjectId {
    /// This id as a map key.
    pub open spec fn packed(self) -> u64 {
        pack(self.circuit, self.id)
    }

    /// The id a map key stands for.
    pub open spec fn unpacked(key: u64) -> ScopedObjectId {
        ScopedObjectId { circuit: (key / 0x1_0000_0000) as u32, id: (key % 0x1_0000_0000) as u32 }
    }

    /// This id as a map key: the circuit in the high half, the local id in the
    /// low half.
    pub fn key(&self) -> (k: u64)
        ensures
            k == self.packed(),
    {
        (self.circuit as u64) * 0x1_0000_0000 + (self.id as u64)
    }

    /// The id a map key stands for.
    pub fn from_key(key: u64) -> (s: ScopedObjectId)
        ensures
            s == ScopedObjectId::unpacked(key),
            s.packed() == key,
    {
        proof {
            lemma_unpack_pack(key);
        }
        ScopedObjectId { circuit: (key / 0x1_0000_0000) as u32, id: (key % 0x1_0000_0000) as u32 }
    }
}

/// Unpacking a key and packing it again gives the key back.
pub proof fn lemma_unpack_pack(key: u64)
    ensures
        ScopedObjectId::unpacked(key).packed() == key,
{
    let c = key / 0x1_0000_0000;
    let i = key % 0x1_0000_0000;
    assert(key == c * 0x1_0000_0000 + i);
}

/// Packing an id and unpacking the key gives the id back, so two ids share a key
/// only when they are the same id.
pub proof fn lemma_pack_unpack(s: ScopedObjectId)
    ensures
        ScopedObjectId::unpacked(s.packed()) == s,
{
    let k = s.circuit as int * 0x1_0000_0000 + s.id as int;
    assert(k / 0x1_0000_0000 == s.circuit as int) by (nonlinear_arith)
        requires k == s.circuit as int * 0x1_0000_0000 + s.id as int, 0 <= s.id < 0x1_0000_0000;
    assert(k % 0x1_0000_0000 == s.id as int) by (nonlinear_arith)
        requires k == s.circuit as int * 0x1_0000_0000 + s.id as int, 0 <= s.id < 0x1_0000_0000;
}

/// Two ids share a key exactly when they are the same id.
pub proof fn lemma_packed_injective(a: ScopedObjectId, b: ScopedObjectId)
    ensures
        a.packed() == b.packed() <==> a == b,
{
    lemma_pack_unpack(a);
    lemma_pack_unpack(b);
}

} // verus!

//! The in-world object graph.
//!
//! What the simulator streams about every prim in the scene, folded into one
//! record per object keyed by its region-scoped id: the identities, the entity
//! that renders it, its shape fingerprint, its linkset parent and attachment
//! point, and the wire-side blocks the edit, pick, physics, minimap and
//! render-cost surfaces read.

use crate::collections::map_keys;
use crate::ids::{AgentKey, Entity, ObjectKey, RegionHandle, ScopedObjectId, TextureKey, Uuid};
use crate::ids::{lemma_pack_unpack, lemma_packed_injective, lemma_unpack_pack};
use crate::object_flags::{
    FLAGS_ALLOW_INVENTORY_DROP, FLAGS_OBJECT_COPY, FLAGS_OBJECT_MODIFY, FLAGS_OBJECT_MOVE,
    FLAGS_OBJECT_YOU_OWNER, FLAGS_PHANTOM, is_hud_point, spec_is_hud_point,
};
use std::collections::HashMap;
use std::collections::HashSet;
use vstd::prelude::*;

verus! {

broadcast use vstd::std_specs::hash::group_hash_axioms;

/// The object-class byte of an avatar.
pub const PCODE_AVATAR: u8 = 47;

/// The object-class byte of a plain volume prim.
pub const PCODE_PRIMITIVE: u8 = 9;

/// The object-class byte of a grass clump.
pub const PCODE_GRASS: u8 = 95;

/// How far up a parent chain a walk goes before giving up. An attachment's
/// chain is short — object, linkset root, avatar — so this only guards against a
/// malformed (cyclic) parent link in the object stream.
pub const MAX_PARENT_WALK: usize = 8;

/// Where a sculpted or mesh object's shape comes from.
#[derive(Clone, Copy, Debug, PartialEq, Eq, Structural)]
pub enum SculptOrMeshKey {
    /// A sculpt map: a texture whose pixels are the surface.
    Sculpt(TextureKey),
    /// A mesh asset.
    Mesh(u128),
}

/// The sculpt / mesh reference of an object and its type byte.
#[derive(Clone, Copy, Debug, PartialEq, Eq, Structural)]
pub struct SculptRef {
    /// The sculpt map or mesh asset.
    pub texture: SculptOrMeshKey,
    /// The sculpt type byte.
    pub sculpt_type: u8,
}

/// An object's extra parameters: the raw blocks as last received (resent whole
/// by an edit, since the message states the complete set), and the facts the
/// logic reads off them.
#[derive(Debug)]
pub struct ExtraParams {
    /// The encoded extra-parameter blocks, exactly as received.
    pub raw: Vec<u8>,
    /// The sculpt / mesh reference, when the object is a sculpt or mesh.
    pub sculpt: Option<SculptRef>,
    /// A flexible prim's softness, when the object is flexible.
    pub flexible_softness: Option<u8>,
    /// Whether the object emits light.
    pub light: bool,
}

impl ExtraParams {
    /// Whether two extra-parameter sets are the same update.
    pub open spec fn same_as(self, other: ExtraParams) -> bool {
        self.raw@ == other.raw@
    }
}

/// The shape-defining parameters of an object, compared between updates so a
/// motion-only update never triggers a re-tessellation.
#[derive(Debug)]
pub struct ShapeFingerprint {
    /// The object class byte.
    pub pcode: u8,
    /// The quantized path / profile shape parameters, as their wire bytes.
    pub shape: Vec<u8>,
    /// The sculpt / mesh reference, when the object is a sculpt or mesh.
    pub sculpt: Option<SculptRef>,
    /// For a grass clump only: its X / Y scale in whole millimetres, which sets
    /// the blade spread; `None` for every other class.
    pub grass_spread: Option<(i32, i32)>,
    /// For a flexible prim: its softness, which sets its section count.
    pub flexi_softness: Option<u8>,
}

impl ShapeFingerprint {
    /// Whether two fingerprints describe the same geometry.
    pub open spec fn same_as(self, other: ShapeFingerprint) -> bool {
        &&& self.pcode == other.pcode
        &&& self.shape@ == other.shape@
        &&& self.sculpt == other.sculpt
        &&& self.grass_spread == other.grass_spread
        &&& self.flexi_softness == other.flexi_softness
    }

    /// The fingerprint of an object: its class, quantized shape and sculpt
    /// reference, the flexible softness, and — for grass only — the spread
    /// (`grass_spread_mm`, the scale already rounded to millimetres).
    pub fn of(
        pcode: u8,
        shape: Vec<u8>,
        extra: &ExtraParams,
        grass_spread_mm: (i32, i32),
    ) -> (f: ShapeFingerprint)
        ensures
            f.pcode == pcode,
            f.shape@ == shape@,
            f.sculpt == extra.sculpt,
            f.flexi_softness == extra.flexible_softness,
            f.grass_spread == (if pcode == PCODE_GRASS { Some(grass_spread_mm) } else { None::<(i32, i32)> }),
    {
        ShapeFingerprint {
            pcode,
            shape,
            sculpt: extra.sculpt,
            grass_spread: if pcode == PCODE_GRASS { Some(grass_spread_mm) } else { None },
            flexi_softness: extra.flexible_softness,
        }
    }

    /// The object-class byte this shape was fingerprinted from.
    pub fn pcode(&self) -> (p: u8)
        ensures
            p == self.pcode,
    {
        self.pcode
    }

    /// Whether `other` describes the same geometry — when it does not, the
    /// object's faces must be rebuilt.
    pub fn same_shape(&self, other: &ShapeFingerprint) -> (same: bool)
        ensures
            same == self.same_as(*other),
    {
        self.pcode == other.pcode && bytes_equal(&self.shape, &other.shape)
            && self.sculpt == other.sculpt && self.grass_spread == other.grass_spread
            && self.flexi_softness == other.flexi_softness
    }
}

/// Whether two byte strings are equal.
pub fn bytes_equal(a: &Vec<u8>, b: &Vec<u8>) -> (eq: bool)
    ensures
        eq == (a@ == b@),
{
    if a.len() != b.len() {
        return false;
    }
    let mut i: usize = 0;
    while i < a.len()
        invariant
            a.len() == b.len(),
            i <= a.len(),
            forall|j: int| 0 <= j < i ==> a@[j] == b@[j],
        decreases a.len() - i,
    {
        if a[i] != b[i] {
            return false;
        }
        i = i + 1;
    }
    assert(a@ =~= b@);
    true
}

/// Whether two colours are equal, channel by channel.
pub fn colors_equal(a: [u8; 4], b: [u8; 4]) -> (eq: bool)
    ensures
        eq == (a == b),
{
    let eq = a[0] == b[0] && a[1] == b[1] && a[2] == b[2] && a[3] == b[3];
    proof {
        broadcast use vstd::array::group_array_axioms;
        if eq {
            assert(a =~= b);
        }
    }
    eq
}

/// The wire-side blocks of one object update that are not motion.
#[derive(Debug)]
pub struct ObjectUpdateBlocks {
    /// The update's flag word.
    pub update_flags: u32,
    /// The physical-material byte.
    pub material: u8,
    /// The floating text.
    pub text: String,
    /// The floating-text colour.
    pub text_color: [u8; 4],
    /// The texture-animation block, as received.
    pub texture_animation: Option<Vec<u8>>,
    /// The extra parameters.
    pub extra: ExtraParams,
}

/// Whether two optional raw blocks are the same.
pub open spec fn same_block(a: Option<Vec<u8>>, b: Option<Vec<u8>>) -> bool {
    match (a, b) {
        (None, None) => true,
        (Some(x), Some(y)) => x@ == y@,
        _ => false,
    }
}

/// Per-object viewer-side bookkeeping, paired with the object's scene entity.
#[derive(Debug)]
pub struct TrackedObject {
    /// The entity rendering this object: it carries the position / rotation and
    /// is the parent linkset children and attachments hang off.
    pub entity: Entity,
    /// The object's grid-wide key.
    pub full_key: ObjectKey,
    /// The per-object geometry holder, a child of the entity carrying the scale.
    pub geometry: Entity,
    /// The object's last-seen shape fingerprint.
    pub shape: ShapeFingerprint,
    /// The scoped id of this object's parent (a linkset root or the avatar it
    /// is attached to); its own id when it is a root.
    pub parent: ScopedObjectId,
    /// Whether this object is a root (has no parent object).
    pub is_root: bool,
    /// Whether this object's entity has been parented to its parent's yet.
    pub parented: bool,
    /// The raw attachment-point id if this object is an attachment root worn on
    /// an avatar, else `None`.
    pub attachment_point: Option<u8>,
    /// The inventory item this attachment was worn from, or the object's own id
    /// for a temporary attachment; `None` when not an attachment.
    pub attachment_item: Option<Uuid>,
    /// The object's owner.
    pub owner_id: AgentKey,
    /// The object's last-seen flag word.
    pub update_flags: u32,
    /// The object's physical-material byte.
    pub material: u8,
    /// The object's complete last-received extra parameters.
    pub extra: ExtraParams,
    /// The last-applied texture-animation block.
    pub texture_animation: Option<Vec<u8>>,
    /// The last-applied floating text.
    pub text: String,
    /// The last-applied floating-text colour.
    pub text_color: [u8; 4],
    /// The per-face child entities carrying this object's geometry.
    pub face_entities: Vec<Entity>,
    /// Whether this object is an animated object (animesh).
    pub animated: bool,
    /// The object's last-received raw texture entry.
    pub texture_entry: Vec<u8>,
    /// The object's last-received legacy media URL.
    pub media_url: Option<String>,
}

impl TrackedObject {
    /// Whether any non-motion input of the component refresh differs from the
    /// last applied update.
    pub open spec fn spec_blocks_changed(
        self,
        update: ObjectUpdateBlocks,
        is_root: bool,
        parent: ScopedObjectId,
        attachment_point: Option<u8>,
    ) -> bool {
        ||| self.update_flags != update.update_flags
        ||| self.material != update.material
        ||| self.is_root != is_root
        ||| self.parent != parent
        ||| self.attachment_point != attachment_point
        ||| self.text@ != update.text@
        ||| self.text_color != update.text_color
        ||| !same_block(self.texture_animation, update.texture_animation)
        ||| !self.extra.same_as(update.extra)
    }

    /// Whether any input other than motion differs between the object as
    /// known and an incoming update: when none does, the update only moves the
    /// object and the per-block refresh is skipped.
    pub fn non_motion_blocks_changed(
        &self,
        update: &ObjectUpdateBlocks,
        is_root: bool,
        parent: ScopedObjectId,
        attachment_point: Option<u8>,
    ) -> (changed: bool)
        ensures
            changed == self.spec_blocks_changed(*update, is_root, parent, attachment_point),
    {
        let same_animation = match (&self.texture_animation, &update.texture_animation) {
            (None, None) => true,
            (Some(x), Some(y)) => bytes_equal(x, y),
            _ => false,
        };
        self.update_flags != update.update_flags || self.material != update.material
            || self.is_root != is_root || self.parent != parent
            || self.attachment_point != attachment_point || self.text != update.text
            || !colors_equal(self.text_color, update.text_color) || !same_animation
            || !bytes_equal(&self.extra.raw, &update.extra.raw)
    }
}

/// The linkset root a walk of at most `steps` parent links reaches from `key`:
/// it stops at a root, at an attachment root, or below a parent this viewer
/// does not track.
pub open spec fn walk_root(objs: Map<u64, TrackedObject>, key: u64, steps: nat) -> u64
    decreases steps,
{
    let t = objs[key];
    if steps == 0 || t.is_root || t.attachment_point is Some || !objs.contains_key(
        t.parent.packed(),
    ) {
        key
    } else {
        walk_root(objs, t.parent.packed(), (steps - 1) as nat)
    }
}

/// The union of the flag words of every object the same walk visits.
pub open spec fn walk_flags(objs: Map<u64, TrackedObject>, key: u64, steps: nat) -> u32
    decreases steps,
{
    let t = objs[key];
    if steps == 0 || t.is_root || t.attachment_point is Some || !objs.contains_key(
        t.parent.packed(),
    ) {
        t.update_flags
    } else {
        t.update_flags | walk_flags(objs, t.parent.packed(), (steps - 1) as nat)
    }
}

/// The avatar object a walk of at most `steps` links from `key` finds the
/// object worn on: the parent of the first object carrying an attachment point,
/// when that point is not a HUD point.
pub open spec fn walk_wearer(objs: Map<u64, TrackedObject>, key: u64, steps: nat) -> Option<
    ScopedObjectId,
>
    decreases steps,
{
    if steps == 0 || !objs.contains_key(key) {
        None
    } else {
        let t = objs[key];
        match t.attachment_point {
            Some(point) => if spec_is_hud_point(point) {
                None
            } else {
                Some(t.parent)
            },
            None => if t.is_root {
                None
            } else {
                walk_wearer(objs, t.parent.packed(), (steps - 1) as nat)
            },
        }
    }
}

/// The attachment point a walk of at most `steps` links from `key` finds: the
/// point of the first object carrying one.
pub open spec fn walk_point(objs: Map<u64, TrackedObject>, key: u64, steps: nat) -> Option<u8>
    decreases steps,
{
    if steps == 0 || !objs.contains_key(key) {
        None
    } else {
        let t = objs[key];
        match t.attachment_point {
            Some(point) => Some(point),
            None => if t.is_root {
                None
            } else {
                walk_point(objs, t.parent.packed(), (steps - 1) as nat)
            },
        }
    }
}

/// A walk of at most `steps` links from a known object only ever visits
/// known objects.
pub proof fn lemma_walk_root_tracked(objs: Map<u64, TrackedObject>, key: u64, steps: nat)
    requires
        objs.contains_key(key),
    ensures
        objs.contains_key(walk_root(objs, key, steps)),
    decreases steps,
{
    let t = objs[key];
    if steps == 0 || t.is_root || t.attachment_point is Some || !objs.contains_key(
        t.parent.packed(),
    ) {
    } else {
        lemma_walk_root_tracked(objs, t.parent.packed(), (steps - 1) as nat);
    }
}

/// The flags a walk collects always include the flags of the object it starts
/// from.
pub proof fn lemma_walk_flags_includes_own(objs: Map<u64, TrackedObject>, key: u64, steps: nat)
    ensures
        walk_flags(objs, key, steps) | objs[key].update_flags == walk_flags(objs, key, steps),
    decreases steps,
{
    let t = objs[key];
    let own = t.update_flags;
    if steps == 0 || t.is_root || t.attachment_point is Some || !objs.contains_key(
        t.parent.packed(),
    ) {
        assert(own | own == own) by (bit_vector);
    } else {
        let rest = walk_flags(objs, t.parent.packed(), (steps - 1) as nat);
        assert((own | rest) | own == own | rest) by (bit_vector);
    }
}

/// What [`ObjectState::pick_summary`] resolves a picked prim to: the identities
/// the object context menu's actions need, and the flag bits its enable gates
/// read.
#[derive(Debug, Clone, Copy, PartialEq, Eq, Structural)]
pub struct ObjectPickSummary {
    /// The picked prim itself — the touch and sit target.
    pub picked_scoped: ScopedObjectId,
    /// The picked prim's grid-wide key.
    pub picked_full: ObjectKey,
    /// The linkset root — what take / delete / return derez.
    pub root_scoped: ScopedObjectId,
    /// The root's grid-wide key.
    pub root_full: ObjectKey,
    /// The union of the picked prim's and the root's flag words.
    pub flags: u32,
    /// Whether the picked chain is worn on an avatar (HUDs included).
    pub attachment: bool,
    /// For a worn chain, the scoped id of the avatar object the attachment root
    /// hangs on; `None` for an ordinary in-world object.
    pub wearer: Option<ScopedObjectId>,
}

/// The wire-side facts the static collider index needs about one prim.
#[derive(Debug, Clone, Copy, PartialEq, Eq, Structural)]
pub struct StaticColliderFacts {
    /// The object's grid-wide key.
    pub full_key: ObjectKey,
    /// Whether the prim is phantom: indexed but not collidable.
    pub phantom: bool,
    /// The mesh asset when the prim is a mesh, else `None`.
    pub mesh: Option<u128>,
    /// Whether the prim is flexible.
    pub flexi: bool,
}

/// The mesh asset of a sculpt reference, when it names a mesh.
pub open spec fn mesh_of(sculpt: Option<SculptRef>) -> Option<u128> {
    match sculpt {
        Some(SculptRef { texture: SculptOrMeshKey::Mesh(key), .. }) => Some(key),
        _ => None,
    }
}

/// The sculpt map of a sculpt reference, when it names a sculpt.
pub open spec fn sculpt_map_of(sculpt: Option<SculptRef>) -> Option<TextureKey> {
    match sculpt {
        Some(SculptRef { texture: SculptOrMeshKey::Sculpt(key), .. }) => Some(key),
        _ => None,
    }
}

/// Viewer-side object bookkeeping: every in-world object currently in the
/// scene, keyed by its scoped id (packed — see [`ScopedObjectId::key`]).
#[derive(Debug)]
pub struct ObjectState {
    /// Every known object, keyed by its packed scoped id.
    pub objects: HashMap<u64, TrackedObject>,
    /// The region the scene is anchored at, `None` until the first region is
    /// known.
    pub origin: Option<RegionHandle>,
}

impl ObjectState {
    /// The known objects, by packed scoped id.
    pub open spec fn table(&self) -> Map<u64, TrackedObject> {
        self.objects@
    }

    /// An empty object graph.
    pub fn new() -> (s: ObjectState)
        ensures
            s.table() == Map::<u64, TrackedObject>::empty(),
            s.origin is None,
    {
        ObjectState { objects: HashMap::new(), origin: None }
    }

    /// Start (or replace) tracking `scoped`.
    pub fn track(&mut self, scoped: ScopedObjectId, object: TrackedObject)
        ensures
            final(self).table() == old(self).table().insert(scoped.packed(), object),
            final(self).origin == old(self).origin,
    {
        let _previous = self.objects.insert(scoped.key(), object);
    }

    /// The region the scene is currently anchored at, or `None` before the
    /// first root region streams.
    pub fn origin(&self) -> (o: Option<RegionHandle>)
        ensures
            o == self.origin,
    {
        self.origin
    }

    /// The grid-wide key of a known object, looked up by its scoped id.
    pub fn full_key(&self, scoped: &ScopedObjectId) -> (k: Option<ObjectKey>)
        ensures
            k == (if self.table().contains_key(scoped.packed()) {
                Some(self.table()[scoped.packed()].full_key)
            } else {
                None::<ObjectKey>
            }),
    {
        match self.objects.get(&scoped.key()) {
            Some(obj) => Some(obj.full_key),
            None => None,
        }
    }

    /// The owner and grid-wide key of a known object — the two ids a mute
    /// entry can name.
    pub fn owner_and_key_by_scoped(&self, scoped: &ScopedObjectId) -> (r: Option<
        (AgentKey, ObjectKey),
    >)
        ensures
            r == (if self.table().contains_key(scoped.packed()) {
                Some(
                    (
                        self.table()[scoped.packed()].owner_id,
                        self.table()[scoped.packed()].full_key,
                    ),
                )
            } else {
                None::<(AgentKey, ObjectKey)>
            }),
    {
        match self.objects.get(&scoped.key()) {
            Some(obj) => Some((obj.owner_id, obj.full_key)),
            None => None,
        }
    }

    /// The entity of the object with scoped id `scoped`, if known.
    pub fn entity_by_scoped(&self, scoped: &ScopedObjectId) -> (e: Option<Entity>)
        ensures
            e == (if self.table().contains_key(scoped.packed()) {
                Some(self.table()[scoped.packed()].entity)
            } else {
                None::<Entity>
            }),
    {
        match self.objects.get(&scoped.key()) {
            Some(obj) => Some(obj.entity),
            None => None,
        }
    }

    /// The physical-material byte of a known object.
    pub fn material_by_scoped(&self, scoped: &ScopedObjectId) -> (m: Option<u8>)
        ensures
            m == (if self.table().contains_key(scoped.packed()) {
                Some(self.table()[scoped.packed()].material)
            } else {
                None::<u8>
            }),
    {
        match self.objects.get(&scoped.key()) {
            Some(obj) => Some(obj.material),
            None => None,
        }
    }

    /// The geometry-holder entity of a known object — the entity carrying
    /// its scale.
    pub fn geometry_of(&self, scoped: &ScopedObjectId) -> (g: Option<Entity>)
        ensures
            g == (if self.table().contains_key(scoped.packed()) {
                Some(self.table()[scoped.packed()].geometry)
            } else {
                None::<Entity>
            }),
    {
        match self.objects.get(&scoped.key()) {
            Some(obj) => Some(obj.geometry),
            None => None,
        }
    }

    /// The parent object's entity of the linked part `scoped`, or `None` for a
    /// root, an attachment, or an untracked object or parent.
    pub fn parent_entity_of(&self, scoped: &ScopedObjectId) -> (e: Option<Entity>)
        ensures
            e == (if self.table().contains_key(scoped.packed()) && !self.table()[scoped.packed()].is_root
                && self.table()[scoped.packed()].attachment_point is None
                && self.table().contains_key(self.table()[scoped.packed()].parent.packed()) {
                Some(self.table()[self.table()[scoped.packed()].parent.packed()].entity)
            } else {
                None::<Entity>
            }),
    {
        let obj = match self.objects.get(&scoped.key()) {
            Some(t) => t,
            None => return None,
        };
        if obj.is_root || obj.attachment_point.is_some() {
            return None;
        }
        match self.objects.get(&obj.parent.key()) {
            Some(parent) => Some(parent.entity),
            None => None,
        }
    }

    /// The scoped id of the linkset root the object `scoped` belongs to: itself
    /// when a root, its parent when a linked child, `None` when untracked or a
    /// worn attachment.
    pub fn linkset_root_of(&self, scoped: &ScopedObjectId) -> (r: Option<ScopedObjectId>)
        ensures
            r == (if !self.table().contains_key(scoped.packed())
                || self.table()[scoped.packed()].attachment_point is Some {
                None::<ScopedObjectId>
            } else if self.table()[scoped.packed()].is_root {
                Some(*scoped)
            } else {
                Some(self.table()[scoped.packed()].parent)
            }),
    {
        let obj = match self.objects.get(&scoped.key()) {
            Some(t) => t,
            None => return None,
        };
        if obj.attachment_point.is_some() {
            return None;
        }
        if obj.is_root {
            Some(*scoped)
        } else {
            Some(obj.parent)
        }
    }

    /// Everything the object context menu needs to know about a picked object,
    /// resolved by walking the linkset parent chain up to its root (at most
    /// [`MAX_PARENT_WALK`] links): the picked prim, the linkset root (for an
    /// attachment, the attachment root), the union of the two flag words, and
    /// the wearer when the chain is worn.
    pub fn pick_summary(&self, scoped: ScopedObjectId) -> (r: Option<ObjectPickSummary>)
        ensures
            !self.table().contains_key(scoped.packed()) ==> r is None,
            self.table().contains_key(scoped.packed()) ==> {
                let objs = self.table();
                let root_key = walk_root(objs, scoped.packed(), MAX_PARENT_WALK as nat);
                let root = objs[root_key];
                let attachment = root.attachment_point is Some;
                r == Some(
                    ObjectPickSummary {
                        picked_scoped: scoped,
                        picked_full: objs[scoped.packed()].full_key,
                        root_scoped: ScopedObjectId::unpacked(root_key),
                        root_full: root.full_key,
                        flags: objs[scoped.packed()].update_flags | root.update_flags,
                        attachment,
                        wearer: if attachment {
                            Some(root.parent)
                        } else {
                            None
                        },
                    },
                )
            },
    {
        let ghost objs = self.table();
        let picked = match self.objects.get(&scoped.key()) {
            Some(t) => t,
            None => return None,
        };
        proof {
            lemma_pack_unpack(scoped);
            lemma_walk_root_tracked(objs, scoped.packed(), MAX_PARENT_WALK as nat);
        }
        let mut root_scoped = scoped;
        let mut root = picked;
        let mut attachment = picked.attachment_point.is_some();
        let mut step: usize = 0;
        while step < MAX_PARENT_WALK
            invariant
                objs == self.table(),
                objs.contains_key(root_scoped.packed()),
                *root == objs[root_scoped.packed()],
                attachment == root.attachment_point is Some,
                ScopedObjectId::unpacked(root_scoped.packed()) == root_scoped,
                step <= MAX_PARENT_WALK,
                walk_root(objs, scoped.packed(), MAX_PARENT_WALK as nat) == walk_root(
                    objs,
                    root_scoped.packed(),
                    (MAX_PARENT_WALK - step) as nat,
                ),
            ensures
                objs.contains_key(root_scoped.packed()),
                *root == objs[root_scoped.packed()],
                attachment == root.attachment_point is Some,
                ScopedObjectId::unpacked(root_scoped.packed()) == root_scoped,
                walk_root(objs, scoped.packed(), MAX_PARENT_WALK as nat) == root_scoped.packed(),
            decreases MAX_PARENT_WALK - step,
        {
            if root.is_root || attachment {
                break;
            }
            let next = root.parent;
            let parent = match self.objects.get(&next.key()) {
                Some(p) => p,
                None => break,
            };
            proof {
                lemma_pack_unpack(next);
            }
            root_scoped = next;
            root = parent;
            attachment = root.attachment_point.is_some();
            step = step + 1;
        }
        Some(
            ObjectPickSummary {
                picked_scoped: scoped,
                picked_full: picked.full_key,
                root_scoped,
                root_full: root.full_key,
                flags: picked.update_flags | root.update_flags,
                attachment,
                wearer: if attachment {
                    Some(root.parent)
                } else {
                    None
                },
            },
        )
    }

    /// The flag word gathered up the linkset chain of `scoped`, and whether the
    /// chain ends on an attachment root.
    fn chain(&self, scoped: &ScopedObjectId) -> (f: Option<(u32, bool)>)
        ensures
            f == (if self.table().contains_key(scoped.packed()) {
                Some(
                    (
                        walk_flags(self.table(), scoped.packed(), MAX_PARENT_WALK as nat),
                        self.table()[walk_root(
                            self.table(),
                            scoped.packed(),
                            MAX_PARENT_WALK as nat,
                        )].attachment_point is Some,
                    ),
                )
            } else {
                None::<(u32, bool)>
            }),
    {
        let ghost objs = self.table();
        let picked = match self.objects.get(&scoped.key()) {
            Some(t) => t,
            None => return None,
        };
        let mut flags = picked.update_flags;
        let mut attachment = picked.attachment_point.is_some();
        let mut current = picked;
        let ghost mut current_key = scoped.packed();
        proof {
            lemma_walk_flags_includes_own(objs, current_key, MAX_PARENT_WALK as nat);
            let w = walk_flags(objs, current_key, MAX_PARENT_WALK as nat);
            let cf = current.update_flags;
            assert(w == (flags | w)) by (bit_vector)
                requires
                    w | cf == w,
                    flags == cf;
            assert(flags | flags == flags) by (bit_vector);
        }
        let mut step: usize = 0;
        while step < MAX_PARENT_WALK
            invariant
                objs == self.table(),
                objs.contains_key(current_key),
                *current == objs[current_key],
                attachment == current.attachment_point is Some,
                step <= MAX_PARENT_WALK,
                walk_flags(objs, scoped.packed(), MAX_PARENT_WALK as nat) == flags | walk_flags(
                    objs,
                    current_key,
                    (MAX_PARENT_WALK - step) as nat,
                ),
                flags | current.update_flags == flags,
                walk_root(objs, scoped.packed(), MAX_PARENT_WALK as nat) == walk_root(
                    objs,
                    current_key,
                    (MAX_PARENT_WALK - step) as nat,
                ),
            ensures
                walk_flags(objs, scoped.packed(), MAX_PARENT_WALK as nat) == flags,
                walk_root(objs, scoped.packed(), MAX_PARENT_WALK as nat) == current_key,
                objs.contains_key(current_key),
                *current == objs[current_key],
                attachment == current.attachment_point is Some,
            decreases MAX_PARENT_WALK - step,
        {
            if current.is_root || attachment {
                proof {
                    let cf = current.update_flags;
                    assert(flags | cf == flags);
                }
                break;
            }
            let parent = match self.objects.get(&current.parent.key()) {
                Some(p) => p,
                None => break,
            };
            proof {
                let old_flags = flags;
                let cf = current.update_flags;
                let pf = parent.update_flags;
                let rest = walk_flags(objs, current.parent.packed(), (MAX_PARENT_WALK - step - 1) as nat);
                assert(walk_flags(objs, current_key, (MAX_PARENT_WALK - step) as nat) == cf | rest);
                lemma_walk_flags_includes_own(objs, current.parent.packed(), (MAX_PARENT_WALK - step - 1) as nat);
                assert((old_flags | (cf | rest)) == ((old_flags | pf) | rest)
                    && ((old_flags | pf) | pf) == (old_flags | pf))
                    by (bit_vector)
                    requires
                        old_flags | cf == old_flags,
                        rest | pf == rest;
                current_key = current.parent.packed();
            }
            current = parent;
            flags = flags | current.update_flags;
            attachment = current.attachment_point.is_some();
            step = step + 1;
        }
        Some((flags, attachment))
    }

    /// The agent-relative flag word of `scoped`: its own bits or-ed with those
    /// of every object up its linkset chain (the agent-relative modify / move /
    /// copy / you-owner bits ride the root), or `None` if unknown.
    pub fn agent_flags(&self, scoped: &ScopedObjectId) -> (f: Option<u32>)
        ensures
            f == (if self.table().contains_key(scoped.packed()) {
                Some(walk_flags(self.table(), scoped.packed(), MAX_PARENT_WALK as nat))
            } else {
                None::<u32>
            }),
    {
        match self.chain(scoped) {
            Some((flags, _attachment)) => Some(flags),
            None => None,
        }
    }

    /// Whether this agent may modify `scoped` — the modify bit. An unknown
    /// object reads modifiable (the simulator arbitrates), so a transient gap
    /// never wrongly greys a control.
    pub fn agent_can_modify(&self, scoped: &ScopedObjectId) -> (ok: bool)
        ensures
            ok == (!self.table().contains_key(scoped.packed()) || walk_flags(
                self.table(),
                scoped.packed(),
                MAX_PARENT_WALK as nat,
            ) & FLAGS_OBJECT_MODIFY != 0),
    {
        match self.agent_flags(scoped) {
            None => true,
            Some(flags) => flags & FLAGS_OBJECT_MODIFY != 0,
        }
    }

    /// Whether this agent may move `scoped` — the modify or the move bit.
    /// An unknown object reads movable.
    pub fn agent_can_move(&self, scoped: &ScopedObjectId) -> (ok: bool)
        ensures
            ok == (!self.table().contains_key(scoped.packed()) || walk_flags(
                self.table(),
                scoped.packed(),
                MAX_PARENT_WALK as nat,
            ) & (FLAGS_OBJECT_MODIFY | FLAGS_OBJECT_MOVE) != 0),
    {
        match self.agent_flags(scoped) {
            None => true,
            Some(flags) => flags & (FLAGS_OBJECT_MODIFY | FLAGS_OBJECT_MOVE) != 0,
        }
    }

    /// Whether this agent may copy `scoped` — the copy bit. An unknown object
    /// reads copyable.
    pub fn agent_can_copy(&self, scoped: &ScopedObjectId) -> (ok: bool)
        ensures
            ok == (!self.table().contains_key(scoped.packed()) || walk_flags(
                self.table(),
                scoped.packed(),
                MAX_PARENT_WALK as nat,
            ) & FLAGS_OBJECT_COPY != 0),
    {
        match self.agent_flags(scoped) {
            None => true,
            Some(flags) => flags & FLAGS_OBJECT_COPY != 0,
        }
    }

    /// Whether this agent owns `scoped` — the you-owner bit. Not optimistic:
    /// an unknown object reads not owned, because ownership gates owner-only
    /// affordances where a wrong yes would offer a refused action.
    pub fn agent_owns(&self, scoped: &ScopedObjectId) -> (ok: bool)
        ensures
            ok == (self.table().contains_key(scoped.packed()) && walk_flags(
                self.table(),
                scoped.packed(),
                MAX_PARENT_WALK as nat,
            ) & FLAGS_OBJECT_YOU_OWNER != 0),
    {
        match self.agent_flags(scoped) {
            None => false,
            Some(flags) => flags & FLAGS_OBJECT_YOU_OWNER != 0,
        }
    }

    /// Whether `scoped` lets anyone add inventory to its contents. An unknown
    /// object reads false.
    pub fn agent_allows_inventory_drop(&self, scoped: &ScopedObjectId) -> (ok: bool)
        ensures
            ok == (self.table().contains_key(scoped.packed()) && walk_flags(
                self.table(),
                scoped.packed(),
                MAX_PARENT_WALK as nat,
            ) & FLAGS_ALLOW_INVENTORY_DROP != 0),
    {
        match self.agent_flags(scoped) {
            None => false,
            Some(flags) => flags & FLAGS_ALLOW_INVENTORY_DROP != 0,
        }
    }

    /// Locally echo an edited flag bit so a checkbox flips at once; the
    /// simulator's own echo confirms or reverts it. A no-op for an unknown
    /// object.
    pub fn apply_local_flag_edit(&mut self, scoped: &ScopedObjectId, bit: u32, on: bool)
        ensures
            final(self).origin == old(self).origin,
            !old(self).table().contains_key(scoped.packed()) ==> final(self).table() == old(self).table(),
            old(self).table().contains_key(scoped.packed()) ==> {
                let t = old(self).table()[scoped.packed()];
                &&& final(self).table().dom() == old(self).table().dom()
                &&& forall|k: u64| k != scoped.packed() && #[trigger] old(self).table().contains_key(k)
                    ==> final(self).table()[k] == old(self).table()[k]
                &&& final(self).table()[scoped.packed()] == (TrackedObject {
                    update_flags: if on { t.update_flags | bit } else { t.update_flags & !bit },
                    ..t
                })
            },
    {
        let key = scoped.key();
        if let Some(mut obj) = self.objects.remove(&key) {
            if on {
                obj.update_flags = obj.update_flags | bit;
            } else {
                obj.update_flags = obj.update_flags & !bit;
            }
            self.objects.insert(key, obj);
            proof {
                assert(final(self).table().dom() =~= old(self).table().dom());
            }
        }
    }

    /// Locally echo an edited material byte; display-only, confirmed by the
    /// simulator's echo.
    pub fn apply_local_material_edit(&mut self, scoped: &ScopedObjectId, material: u8)
        ensures
            final(self).origin == old(self).origin,
            !old(self).table().contains_key(scoped.packed()) ==> final(self).table() == old(self).table(),
            old(self).table().contains_key(scoped.packed()) ==> {
                let t = old(self).table()[scoped.packed()];
                &&& final(self).table().dom() == old(self).table().dom()
                &&& forall|k: u64| k != scoped.packed() && #[trigger] old(self).table().contains_key(k)
                    ==> final(self).table()[k] == old(self).table()[k]
                &&& final(self).table()[scoped.packed()] == (TrackedObject { material, ..t })
            },
    {
        let key = scoped.key();
        if let Some(mut obj) = self.objects.remove(&key) {
            obj.material = material;
            self.objects.insert(key, obj);
            proof {
                assert(final(self).table().dom() =~= old(self).table().dom());
            }
        }
    }

    /// Locally echo an edited extra-parameter set; display-only — the shape
    /// fingerprint is deliberately untouched so the simulator's echo still
    /// triggers the rebuild it needs.
    pub fn apply_local_extra_edit(&mut self, scoped: &ScopedObjectId, extra: ExtraParams)
        ensures
            final(self).origin == old(self).origin,
            !old(self).table().contains_key(scoped.packed()) ==> final(self).table() == old(self).table(),
            old(self).table().contains_key(scoped.packed()) ==> {
                let t = old(self).table()[scoped.packed()];
                &&& final(self).table().dom() == old(self).table().dom()
                &&& forall|k: u64| k != scoped.packed() && #[trigger] old(self).table().contains_key(k)
                    ==> final(self).table()[k] == old(self).table()[k]
                &&& final(self).table()[scoped.packed()] == (TrackedObject { extra, ..t })
            },
    {
        let key = scoped.key();
        if let Some(mut obj) = self.objects.remove(&key) {
            obj.extra = extra;
            self.objects.insert(key, obj);
            proof {
                assert(final(self).table().dom() =~= old(self).table().dom());
            }
        }
    }

    /// The last-received raw texture entry of a known object (empty when it has
    /// not carried one yet).
    pub fn texture_entry_of(&self, scoped: &ScopedObjectId) -> (t: Option<&[u8]>)
        ensures
            t matches Some(bytes) ==> self.table().contains_key(scoped.packed()) && bytes@
                == self.table()[scoped.packed()].texture_entry@,
            t is None <==> !self.table().contains_key(scoped.packed()),
    {
        match self.objects.get(&scoped.key()) {
            Some(obj) => Some(obj.texture_entry.as_slice()),
            None => None,
        }
    }

    /// The last-received legacy media URL of a known object.
    pub fn media_url_of(&self, scoped: &ScopedObjectId) -> (u: Option<String>)
        ensures
            u matches Some(url) ==> (self.table().contains_key(scoped.packed())
                && (self.table()[scoped.packed()].media_url matches Some(held) && url@ == held@)),
            u is None <==> (!self.table().contains_key(scoped.packed())
                || self.table()[scoped.packed()].media_url is None),
    {
        match self.objects.get(&scoped.key()) {
            Some(obj) => match &obj.media_url {
                Some(url) => Some(url.clone()),
                None => None,
            },
            None => None,
        }
    }

    /// The face entities carrying a known object's geometry; empty for an
    /// unknown or not yet tessellated object.
    pub fn face_entities_of(&self, scoped: &ScopedObjectId) -> (f: &[Entity])
        ensures
            f@ == (if self.table().contains_key(scoped.packed()) {
                self.table()[scoped.packed()].face_entities@
            } else {
                Seq::<Entity>::empty()
            }),
    {
        match self.objects.get(&scoped.key()) {
            Some(obj) => obj.face_entities.as_slice(),
            None => &[],
        }
    }

    /// The facts the static collider index needs about one known prim.
    pub fn static_collider_facts(&self, scoped: &ScopedObjectId) -> (f: Option<StaticColliderFacts>)
        ensures
            f == (if self.table().contains_key(scoped.packed()) {
                let t = self.table()[scoped.packed()];
                Some(
                    StaticColliderFacts {
                        full_key: t.full_key,
                        phantom: t.update_flags & FLAGS_PHANTOM != 0,
                        mesh: mesh_of(t.extra.sculpt),
                        flexi: t.extra.flexible_softness is Some,
                    },
                )
            } else {
                None::<StaticColliderFacts>
            }),
    {
        let obj = match self.objects.get(&scoped.key()) {
            Some(t) => t,
            None => return None,
        };
        let mesh = match obj.extra.sculpt {
            Some(SculptRef { texture: SculptOrMeshKey::Mesh(key), .. }) => Some(key),
            _ => None,
        };
        Some(
            StaticColliderFacts {
                full_key: obj.full_key,
                phantom: obj.update_flags & FLAGS_PHANTOM != 0,
                mesh,
                flexi: obj.extra.flexible_softness.is_some(),
            },
        )
    }

    /// The scoped id of the avatar object that known object `scoped` is worn
    /// on — walking up the linkset to the attachment root and taking its parent
    /// (at most [`MAX_PARENT_WALK`] links) — or `None` when it is not part of a
    /// worn, non-HUD attachment.
    pub fn wearer_of(&self, scoped: ScopedObjectId) -> (w: Option<ScopedObjectId>)
        ensures
            w == walk_wearer(self.table(), scoped.packed(), MAX_PARENT_WALK as nat),
    {
        let ghost objs = self.table();
        let mut current = scoped;
        let mut step: usize = 0;
        while step < MAX_PARENT_WALK
            invariant
                objs == self.table(),
                step <= MAX_PARENT_WALK,
                walk_wearer(objs, scoped.packed(), MAX_PARENT_WALK as nat) == walk_wearer(
                    objs,
                    current.packed(),
                    (MAX_PARENT_WALK - step) as nat,
                ),
            decreases MAX_PARENT_WALK - step,
        {
            let obj = match self.objects.get(&current.key()) {
                Some(t) => t,
                None => return None,
            };
            if let Some(point) = obj.attachment_point {
                return if !is_hud_point(point) {
                    Some(obj.parent)
                } else {
                    None
                };
            }
            if obj.is_root {
                return None;
            }
            current = obj.parent;
            step = step + 1;
        }
        None
    }

    /// The raw attachment point known object `scoped` is worn on — its own, or
    /// its attachment root's — or `None` when it is not part of an attachment.
    /// HUD points included.
    pub fn attachment_point_of(&self, scoped: ScopedObjectId) -> (p: Option<u8>)
        ensures
            p == walk_point(self.table(), scoped.packed(), MAX_PARENT_WALK as nat),
    {
        let ghost objs = self.table();
        let mut current = scoped;
        let mut step: usize = 0;
        while step < MAX_PARENT_WALK
            invariant
                objs == self.table(),
                step <= MAX_PARENT_WALK,
                walk_point(objs, scoped.packed(), MAX_PARENT_WALK as nat) == walk_point(
                    objs,
                    current.packed(),
                    (MAX_PARENT_WALK - step) as nat,
                ),
            decreases MAX_PARENT_WALK - step,
        {
            let obj = match self.objects.get(&current.key()) {
                Some(t) => t,
                None => return None,
            };
            if let Some(point) = obj.attachment_point {
                return Some(point);
            }
            if obj.is_root {
                return None;
            }
            current = obj.parent;
            step = step + 1;
        }
        None
    }

    /// The scoped ids of every known object whose grid-wide id is `id` —
    /// normally one, but an object streamed by two connected regions has one
    /// per circuit.
    pub fn scoped_by_full_id(&self, id: Uuid) -> (r: Vec<ScopedObjectId>)
        ensures
            r@.no_duplicates(),
            forall|s: ScopedObjectId| #[trigger] r@.contains(s) <==> (self.table().contains_key(
                s.packed(),
            ) && self.table()[s.packed()].full_key == id),
    {
        let keys = map_keys(&self.objects);
        let mut r: Vec<ScopedObjectId> = Vec::new();
        for i in 0..keys.len()
            invariant
                keys@.no_duplicates(),
                forall|k: u64| keys@.contains(k) <==> self.table().contains_key(k),
                r@.no_duplicates(),
                forall|t: ScopedObjectId| #[trigger] r@.contains(t) ==> (self.table().contains_key(t.packed())
                    && self.table()[t.packed()].full_key == id
                    && exists|j: int| 0 <= j < i && keys@[j] == t.packed()),
                forall|j: int| 0 <= j < i && self.table()[#[trigger] keys@[j]].full_key == id
                    ==> r@.contains(ScopedObjectId::unpacked(keys@[j])),
        {
            let k = keys[i];
            assert(keys@.contains(k));
            let obj = self.objects.get(&k).unwrap();
            if obj.full_key == id {
                let s = ScopedObjectId::from_key(k);
                proof {
                    assert forall|t: ScopedObjectId| r@.contains(t) implies t != s by {
                        let j = choose|j: int| 0 <= j < i && keys@[j] == t.packed();
                        assert(keys@[j] != keys@[i as int]);
                    }
                }
                let ghost before = r@;
                r.push(s);
                proof {
                    assert(r@ == before.push(s));
                    assert forall|a: int, b: int| 0 <= a < r.len() && 0 <= b < r.len() && a != b
                        implies r@[a] != r@[b] by {
                        if a < before.len() && b < before.len() {
                        } else if a < before.len() {
                            assert(before.contains(r@[a]));
                        } else {
                            assert(before.contains(r@[b]));
                        }
                    }
                    assert forall|t: ScopedObjectId| #[trigger] r@.contains(t) implies (self.table().contains_key(t.packed())
                        && self.table()[t.packed()].full_key == id
                        && exists|j: int| 0 <= j < i + 1 && keys@[j] == t.packed()) by {
                        if t == s {
                            assert(keys@[i as int] == t.packed());
                        } else {
                            let x = choose|x: int| 0 <= x < r.len() && r@[x] == t;
                            assert(before.contains(t));
                        }
                    }
                    assert forall|j: int| 0 <= j < i + 1 && self.table()[#[trigger] keys@[j]].full_key == id
                        implies r@.contains(ScopedObjectId::unpacked(keys@[j])) by {
                        if j < i {
                            let x = choose|x: int| 0 <= x < before.len() && before[x] == ScopedObjectId::unpacked(keys@[j]);
                            assert(r@[x] == before[x]);
                        } else {
                            assert(r@[before.len() as int] == s);
                        }
                    }
                }
            }
        }
        proof {
            assert forall|t: ScopedObjectId| self.table().contains_key(t.packed())
                && self.table()[t.packed()].full_key == id implies #[trigger] r@.contains(t) by {
                assert(keys@.contains(t.packed()));
                let j = choose|j: int| 0 <= j < keys.len() && keys@[j] == t.packed();
                lemma_pack_unpack(t);
            }
        }
        r
    }

    /// The entity of an object with grid-wide key `key`, or `None` if no
    /// known object has it.
    pub fn entity_of(&self, key: ObjectKey) -> (e: Option<Entity>)
        ensures
            e is None <==> !(exists|k: u64| #[trigger] self.table().contains_key(k) && self.table()[k].full_key == key),
            e matches Some(entity) ==> exists|k: u64| #[trigger] self.table().contains_key(k)
                && self.table()[k].full_key == key && self.table()[k].entity == entity,
    {
        match self.find_by_key(key) {
            Some(k) => Some(self.objects.get(&k).unwrap().entity),
            None => None,
        }
    }

    /// The flag word of an object with grid-wide key `key` (its own, not or-ed
    /// with its root's), or `None` if no known object has it.
    pub fn update_flags_by_key(&self, key: ObjectKey) -> (f: Option<u32>)
        ensures
            f is None <==> !(exists|k: u64| #[trigger] self.table().contains_key(k) && self.table()[k].full_key == key),
            f matches Some(flags) ==> exists|k: u64| #[trigger] self.table().contains_key(k)
                && self.table()[k].full_key == key && self.table()[k].update_flags == flags,
    {
        match self.find_by_key(key) {
            Some(k) => Some(self.objects.get(&k).unwrap().update_flags),
            None => None,
        }
    }

    /// The face entities of an object with grid-wide key `key`, or `None` if
    /// no known object has it.
    pub fn face_entities_by_key(&self, key: ObjectKey) -> (f: Option<&[Entity]>)
        ensures
            f is None <==> !(exists|k: u64| #[trigger] self.table().contains_key(k) && self.table()[k].full_key == key),
            f matches Some(faces) ==> exists|k: u64| #[trigger] self.table().contains_key(k)
                && self.table()[k].full_key == key && self.table()[k].face_entities@ == faces@,
    {
        match self.find_by_key(key) {
            Some(k) => Some(self.objects.get(&k).unwrap().face_entities.as_slice()),
            None => None,
        }
    }

    /// The packed scoped id of some known object whose grid-wide key is `key`.
    pub(crate) fn find_by_key(&self, key: ObjectKey) -> (r: Option<u64>)
        ensures
            r is None <==> !(exists|k: u64| #[trigger] self.table().contains_key(k) && self.table()[k].full_key == key),
            r matches Some(k) ==> self.table().contains_key(k) && self.table()[k].full_key == key,
    {
        let keys = map_keys(&self.objects);
        for i in 0..keys.len()
            invariant
                forall|k: u64| keys@.contains(k) <==> self.table().contains_key(k),
                forall|j: int| 0 <= j < i ==> self.table()[#[trigger] keys@[j]].full_key != key,
        {
            let k = keys[i];
            assert(keys@.contains(k));
            if self.objects.get(&k).unwrap().full_key == key {
                return Some(k);
            }
        }
        proof {
            assert forall|k: u64| #[trigger] self.table().contains_key(k) implies self.table()[k].full_key != key by {
                assert(keys@.contains(k));
                let j = choose|j: int| 0 <= j < keys.len() && keys@[j] == k;
            }
        }
        None
    }

    /// The packed ids of every known object that `keep` accepts, each once;
    /// `wanted` is what `keep` decides.
    fn select_keys<F: Fn(u64, &TrackedObject) -> bool>(
        &self,
        keep: F,
        Ghost(wanted): Ghost<spec_fn(u64, TrackedObject) -> bool>,
    ) -> (r: Vec<u64>)
        requires
            forall|k: u64, t: TrackedObject| #[trigger] keep.requires((k, &t)),
            forall|k: u64, t: TrackedObject, b: bool| #[trigger] keep.ensures((k, &t), b) ==> b == wanted(k, t),
        ensures
            r@.no_duplicates(),
            forall|k: u64| #[trigger] r@.contains(k) <==> (self.table().contains_key(k) && wanted(k, self.table()[k])),
    {
        let keys = map_keys(&self.objects);
        let mut r: Vec<u64> = Vec::new();
        for i in 0..keys.len()
            invariant
                keys@.no_duplicates(),
                forall|k: u64| keys@.contains(k) <==> self.table().contains_key(k),
                forall|k: u64, t: TrackedObject| #[trigger] keep.requires((k, &t)),
                forall|k: u64, t: TrackedObject, b: bool| #[trigger] keep.ensures((k, &t), b) ==> b == wanted(k, t),
                r@.no_duplicates(),
                forall|k: u64| #[trigger] r@.contains(k) ==> (self.table().contains_key(k) && wanted(k, self.table()[k])
                    && exists|j: int| 0 <= j < i && keys@[j] == k),
                forall|j: int| 0 <= j < i && self.table().contains_key(#[trigger] keys@[j]) && wanted(keys@[j], self.table()[keys@[j]])
                    ==> r@.contains(keys@[j]),
        {
            let k = keys[i];
            assert(keys@.contains(k));
            let obj = self.objects.get(&k).unwrap();
            if keep(k, obj) {
                proof {
                    assert forall|x: u64| r@.contains(x) implies x != k by {
                        let j = choose|j: int| 0 <= j < i && keys@[j] == x;
                        assert(keys@[j] != keys@[i as int]);
                    }
                }
                let ghost before = r@;
                r.push(k);
                proof {
                    assert forall|a: int, b: int| 0 <= a < r.len() && 0 <= b < r.len() && a != b
                        implies r@[a] != r@[b] by {
                        if a < before.len() && b < before.len() {
                        } else if a < before.len() {
                            assert(before.contains(r@[a]));
                        } else {
                            assert(before.contains(r@[b]));
                        }
                    }
                    assert forall|x: u64| #[trigger] r@.contains(x) implies (self.table().contains_key(x) && wanted(x, self.table()[x])
                        && exists|j: int| 0 <= j < i + 1 && keys@[j] == x) by {
                        if x == k {
                            assert(keys@[i as int] == x);
                        } else {
                            let y = choose|y: int| 0 <= y < r.len() && r@[y] == x;
                            assert(before.contains(x));
                        }
                    }
                    assert forall|j: int| 0 <= j < i + 1 && self.table().contains_key(#[trigger] keys@[j]) && wanted(keys@[j], self.table()[keys@[j]])
                        implies r@.contains(keys@[j]) by {
                        if j < i {
                            let y = choose|y: int| 0 <= y < before.len() && before[y] == keys@[j];
                            assert(r@[y] == before[y]);
                        } else {
                            assert(r@[before.len() as int] == k);
                        }
                    }
                }
            }
        }
        proof {
            assert forall|k: u64| self.table().contains_key(k) && wanted(k, self.table()[k]) implies #[trigger] r@.contains(k) by {
                assert(keys@.contains(k));
                let j = choose|j: int| 0 <= j < keys.len() && keys@[j] == k;
            }
        }
        r
    }

    /// Every prim of the in-world linkset rooted at `root`: the root itself
    /// first, then every known child prim whose parent is it (attachments
    /// excluded), in a stable order — by region-local id. An unknown `root`
    /// yields nothing.
    pub fn linkset_members(&self, root: &ScopedObjectId) -> (r: Vec<ScopedObjectId>)
        ensures
            !self.table().contains_key(root.packed()) ==> r@.len() == 0,
            self.table().contains_key(root.packed()) ==> {
                &&& r@.len() >= 1
                &&& r@[0] == *root
                &&& r@.no_duplicates()
                &&& forall|s: ScopedObjectId| #[trigger] r@.contains(s) <==> (s == *root
                    || is_linkset_child(self.table(), root.packed(), s.packed()))
                &&& forall|a: int, b: int| 1 <= a < b < r@.len() ==> r@[a].id <= r@[b].id
            },
    {
        let mut members: Vec<ScopedObjectId> = Vec::new();
        if !self.objects.contains_key(&root.key()) {
            return members;
        }
        let root_key = root.key();
        let is_child = |k: u64, obj: &TrackedObject| -> (b: bool)
            ensures
                b == is_linkset_child_obj(root_key, k, obj),
        {
            k != root_key && !obj.is_root && obj.attachment_point.is_none() && obj.parent.key() == root_key
        };
        let keys = self.select_keys(
            is_child,
            Ghost(|k: u64, t: TrackedObject| is_linkset_child_obj(root_key, k, &t)),
        );
        let mut children: Vec<ScopedObjectId> = Vec::new();
        for i in 0..keys.len()
            invariant
                children@.len() == i,
                forall|j: int| 0 <= j < i ==> #[trigger] children@[j] == ScopedObjectId::unpacked(keys@[j]),
        {
            children.push(ScopedObjectId::from_key(keys[i]));
        }
        proof {
            assert forall|a: int, b: int| 0 <= a < children.len() && 0 <= b < children.len() && a != b
                implies children@[a] != children@[b] by {
                lemma_unpack_pack(keys@[a]);
                lemma_unpack_pack(keys@[b]);
            }
            assert forall|s: ScopedObjectId| #[trigger] children@.contains(s) <==> is_linkset_child(self.table(), root.packed(), s.packed()) by {
                lemma_pack_unpack(s);
                if children@.contains(s) {
                    let j = choose|j: int| 0 <= j < children.len() && children@[j] == s;
                    lemma_unpack_pack(keys@[j]);
                    assert(keys@.contains(keys@[j]));
                }
                if is_linkset_child(self.table(), root.packed(), s.packed()) {
                    assert(keys@.contains(s.packed()));
                    let j = choose|j: int| 0 <= j < keys.len() && keys@[j] == s.packed();
                    assert(children@[j] == s);
                }
            }
        }
        let sorted = sort_by_local_id(children);
        members.push(*root);
        let mut i: usize = 0;
        while i < sorted.len()
            invariant
                i <= sorted.len(),
                members@.len() == i + 1,
                members@[0] == *root,
                forall|j: int| 0 <= j < i ==> #[trigger] members@[j + 1] == sorted@[j],
            decreases sorted.len() - i,
        {
            members.push(sorted[i]);
            i = i + 1;
        }
        proof {
            assert(members@.subrange(1, members@.len() as int) =~= sorted@);
            assert forall|a: int, b: int| 1 <= a < b < members@.len() implies members@[a].id <= members@[b].id by {
                assert(members@[(a - 1) + 1] == sorted@[a - 1]);
                assert(members@[(b - 1) + 1] == sorted@[b - 1]);
            }
            assert forall|s: ScopedObjectId| #[trigger] members@.contains(s) <==> (s == *root
                || is_linkset_child(self.table(), root.packed(), s.packed())) by {
                if members@.contains(s) && s != *root {
                    let j = choose|j: int| 0 <= j < members.len() && members@[j] == s;
                    assert(members@[(j - 1) + 1] == sorted@[j - 1]);
                    assert(sorted@.contains(members@[j]));
                }
                if s == *root {
                    assert(members@[0] == s);
                }
                if is_linkset_child(self.table(), root.packed(), s.packed()) {
                    assert(sorted@.contains(s));
                    let j = choose|j: int| 0 <= j < sorted.len() && sorted@[j] == s;
                    assert(members@[j + 1] == s);
                }
            }
            assert forall|a: int, b: int| 0 <= a < members.len() && 0 <= b < members.len() && a != b
                implies members@[a] != members@[b] by {
                if a == 0 && b > 0 {
                    assert(members@[(b - 1) + 1] == sorted@[b - 1]);
                    assert(sorted@.contains(members@[b]));
                    lemma_pack_unpack(*root);
                } else if b == 0 && a > 0 {
                    assert(members@[(a - 1) + 1] == sorted@[a - 1]);
                    assert(sorted@.contains(members@[a]));
                    lemma_pack_unpack(*root);
                } else {
                    assert(members@[a] == sorted@[a - 1]);
                    assert(members@[b] == sorted@[b - 1]);
                }
            }
        }
        members
    }

    /// The number of prims in the linkset rooted at `root` (zero for an unknown
    /// root) — what the link-limit guard sums.
    pub fn linkset_prim_count(&self, root: &ScopedObjectId) -> (n: usize)
        ensures
            !self.table().contains_key(root.packed()) ==> n == 0,
            self.table().contains_key(root.packed()) ==> n == 1 + self.table().dom().filter(
                |k: u64| is_linkset_child(self.table(), root.packed(), k),
            ).len(),
    {
        let members = self.linkset_members(root);
        proof {
            if self.table().contains_key(root.packed()) {
                let children = self.table().dom().filter(|k: u64| is_linkset_child(self.table(), root.packed(), k));
                let rest = members@.subrange(1, members@.len() as int);
                let keys = rest.map_values(|s: ScopedObjectId| s.packed());
                assert forall|a: int, b: int| 0 <= a < keys.len() && 0 <= b < keys.len() && a != b
                    implies keys[a] != keys[b] by {
                    assert(members@[a + 1] != members@[b + 1]);
                    lemma_packed_injective(rest[a], rest[b]);
                }
                assert forall|k: u64| #[trigger] keys.contains(k) <==> children.contains(k) by {
                    if keys.contains(k) {
                        let j = choose|j: int| 0 <= j < keys.len() && keys[j] == k;
                        assert(members@.contains(rest[j]));
                        assert(rest[j] != *root);
                    }
                    if children.contains(k) {
                        let s = ScopedObjectId::unpacked(k);
                        lemma_unpack_pack(k);
                        assert(members@.contains(s));
                        let j = choose|j: int| 0 <= j < members.len() && members@[j] == s;
                        assert(j != 0);
                        assert(keys[j - 1] == k);
                    }
                }
                keys.unique_seq_to_set();
                assert(keys.to_set() =~= children);
            }
        }
        members.len()
    }

    /// Every known in-world prim for the minimap's object layer, each once: its
    /// entity and its flag word or-ed with those up its linkset chain. Avatars
    /// and anything worn (a chain ending on an attachment root) are left out.
    pub fn minimap_objects(&self) -> (r: Vec<(Entity, u32)>)
        ensures
            exists|ks: Seq<u64>| #[trigger] lists_minimap_keys(self.table(), ks) && r@ == ks.map_values(
                |k: u64| minimap_entry(self.table(), k),
            ),
    {
        let ghost objs = self.table();
        let keys = map_keys(&self.objects);
        let mut out: Vec<(Entity, u32)> = Vec::new();
        let ghost mut ks: Seq<u64> = Seq::empty();
        for i in 0..keys.len()
            invariant
                objs == self.table(),
                keys@.no_duplicates(),
                forall|k: u64| keys@.contains(k) <==> objs.contains_key(k),
                ks.no_duplicates(),
                forall|k: u64| #[trigger] ks.contains(k) ==> (on_minimap(objs, k) && exists|j: int| 0 <= j < i && keys@[j] == k),
                forall|j: int| 0 <= j < i && on_minimap(objs, #[trigger] keys@[j]) ==> ks.contains(keys@[j]),
                out@ == ks.map_values(|k: u64| minimap_entry(objs, k)),
        {
            let k = keys[i];
            assert(keys@.contains(k));
            let obj = self.objects.get(&k).unwrap();
            let s = ScopedObjectId::from_key(k);
            let shows = match self.chain(&s) {
                Some((flags, attachment)) => {
                    if obj.shape.pcode != PCODE_AVATAR && !attachment {
                        Some(flags)
                    } else {
                        None
                    }
                },
                None => None,
            };
            if let Some(flags) = shows {
                proof {
                    assert forall|x: u64| ks.contains(x) implies x != k by {
                        let j = choose|j: int| 0 <= j < i && keys@[j] == x;
                        assert(keys@[j] != keys@[i as int]);
                    }
                }
                let ghost before = ks;
                out.push((obj.entity, flags));
                proof {
                    ks = ks.push(k);
                    assert(out@ =~= ks.map_values(|k: u64| minimap_entry(objs, k)));
                    assert forall|a: int, b: int| 0 <= a < ks.len() && 0 <= b < ks.len() && a != b
                        implies ks[a] != ks[b] by {
                        if a < before.len() && b < before.len() {
                        } else if a < before.len() {
                            assert(before.contains(ks[a]));
                        } else {
                            assert(before.contains(ks[b]));
                        }
                    }
                    assert forall|x: u64| #[trigger] ks.contains(x) implies (on_minimap(objs, x)
                        && exists|j: int| 0 <= j < i + 1 && keys@[j] == x) by {
                        if x == k {
                            assert(keys@[i as int] == x);
                        } else {
                            let y = choose|y: int| 0 <= y < ks.len() && ks[y] == x;
                            assert(before.contains(x));
                        }
                    }
                    assert forall|j: int| 0 <= j < i + 1 && on_minimap(objs, #[trigger] keys@[j])
                        implies ks.contains(keys@[j]) by {
                        if j < i {
                            let y = choose|y: int| 0 <= y < before.len() && before[y] == keys@[j];
                            assert(ks[y] == before[y]);
                        } else {
                            assert(ks[before.len() as int] == k);
                        }
                    }
                }
            } else {
                proof {
                    assert(!on_minimap(objs, k));
                }
            }
        }
        proof {
            assert forall|k: u64| on_minimap(objs, k) implies #[trigger] ks.contains(k) by {
                assert(keys@.contains(k));
                let j = choose|j: int| 0 <= j < keys.len() && keys@[j] == k;
            }
            assert(lists_minimap_keys(objs, ks));
        }
        out
    }

    /// Every worn, non-HUD attachment root, grouped by the packed scoped id of
    /// the avatar object wearing it; each root listed once under its wearer.
    pub fn attachment_roots_by_wearer(&self) -> (r: HashMap<u64, Vec<ScopedObjectId>>)
        ensures
            forall|w: u64| #[trigger] r@.contains_key(w) <==> exists|k: u64| #[trigger] worn_on(self.table(), w, k),
            forall|w: u64| #[trigger] r@.contains_key(w) ==> r@[w]@.no_duplicates(),
            forall|w: u64, s: ScopedObjectId| #[trigger] r@.contains_key(w) ==> (#[trigger] r@[w]@.contains(s)
                <==> worn_on(self.table(), w, s.packed())),
    {
        let ghost objs = self.table();
        let keys = map_keys(&self.objects);
        let mut worn: HashMap<u64, Vec<ScopedObjectId>> = HashMap::new();
        for i in 0..keys.len()
            invariant
                objs == self.table(),
                keys@.no_duplicates(),
                forall|k: u64| keys@.contains(k) <==> objs.contains_key(k),
                forall|w: u64| #[trigger] worn@.contains_key(w) <==> exists|j: int| 0 <= j < i && #[trigger] worn_on(objs, w, keys@[j]),
                forall|w: u64| #[trigger] worn@.contains_key(w) ==> worn@[w]@.no_duplicates(),
                forall|w: u64, s: ScopedObjectId| #[trigger] worn@.contains_key(w) ==> (#[trigger] worn@[w]@.contains(s)
                    <==> exists|j: int| 0 <= j < i && keys@[j] == s.packed() && worn_on(objs, w, s.packed())),
        {
            let k = keys[i];
            assert(keys@.contains(k));
            let obj = self.objects.get(&k).unwrap();
            let wanted = match obj.attachment_point {
                Some(point) => !is_hud_point(point),
                None => false,
            };
            if wanted {
                let w = obj.parent.key();
                let s = ScopedObjectId::from_key(k);
                let ghost before = worn@;
                let mut list = match worn.remove(&w) {
                    Some(v) => v,
                    None => Vec::new(),
                };
                proof {
                    assert forall|x: ScopedObjectId| list@.contains(x) implies x != s by {
                        if before.contains_key(w) {
                            let j = choose|j: int| 0 <= j < i && keys@[j] == x.packed() && worn_on(objs, w, x.packed());
                            assert(keys@[j] != keys@[i as int]);
                        }
                    }
                }
                let ghost prev = list@;
                list.push(s);
                worn.insert(w, list);
                proof {
                    assert(worn_on(objs, w, k));
                    assert forall|a: int, b: int| 0 <= a < worn@[w]@.len() && 0 <= b < worn@[w]@.len() && a != b
                        implies worn@[w]@[a] != worn@[w]@[b] by {
                        if a < prev.len() && b < prev.len() {
                        } else if a < prev.len() {
                            assert(prev.contains(worn@[w]@[a]));
                        } else {
                            assert(prev.contains(worn@[w]@[b]));
                        }
                    }
                    assert forall|v: u64| #[trigger] worn@.contains_key(v) <==> exists|j: int| 0 <= j < i + 1
                        && #[trigger] worn_on(objs, v, keys@[j]) by {
                        if v == w {
                            assert(worn_on(objs, v, keys@[i as int]));
                        } else if worn@.contains_key(v) {
                            assert(before.contains_key(v));
                        } else if exists|j: int| 0 <= j < i + 1 && #[trigger] worn_on(objs, v, keys@[j]) {
                            let j = choose|j: int| 0 <= j < i + 1 && #[trigger] worn_on(objs, v, keys@[j]);
                            if j == i {
                                assert(objs[k].parent.packed() == w);
                            } else {
                                assert(before.contains_key(v));
                            }
                        }
                    }
                    assert forall|v: u64, x: ScopedObjectId| #[trigger] worn@.contains_key(v) implies (#[trigger] worn@[v]@.contains(x)
                        <==> exists|j: int| 0 <= j < i + 1 && keys@[j] == x.packed() && worn_on(objs, v, x.packed())) by {
                        if v == w {
                            if worn@[v]@.contains(x) {
                                let y = choose|y: int| 0 <= y < worn@[v]@.len() && worn@[v]@[y] == x;
                                if y < prev.len() {
                                    assert(prev.contains(x));
                                } else {
                                    assert(keys@[i as int] == x.packed());
                                }
                            }
                            if exists|j: int| 0 <= j < i + 1 && keys@[j] == x.packed() && worn_on(objs, v, x.packed()) {
                                let j = choose|j: int| 0 <= j < i + 1 && keys@[j] == x.packed() && worn_on(objs, v, x.packed());
                                if j == i {
                                    lemma_pack_unpack(x);
                                    assert(worn@[v]@[prev.len() as int] == x);
                                } else {
                                    assert(before.contains_key(v));
                                    assert(prev.contains(x));
                                    let y = choose|y: int| 0 <= y < prev.len() && prev[y] == x;
                                    assert(worn@[v]@[y] == x);
                                }
                            }
                        } else {
                            assert(before.contains_key(v));
                            if exists|j: int| 0 <= j < i + 1 && keys@[j] == x.packed() && worn_on(objs, v, x.packed()) {
                                let j = choose|j: int| 0 <= j < i + 1 && keys@[j] == x.packed() && worn_on(objs, v, x.packed());
                                assert(j != i);
                            }
                        }
                    }
                }
            } else {
                proof {
                    assert forall|v: u64| !#[trigger] worn_on(objs, v, k) by {}
                }
            }
        }
        proof {
            assert forall|w: u64| #[trigger] worn@.contains_key(w) <==> exists|k: u64| #[trigger] worn_on(objs, w, k) by {
                if exists|k: u64| #[trigger] worn_on(objs, w, k) {
                    let k = choose|k: u64| #[trigger] worn_on(objs, w, k);
                    assert(keys@.contains(k));
                    let j = choose|j: int| 0 <= j < keys.len() && keys@[j] == k;
                    assert(worn_on(objs, w, keys@[j]));
                }
            }
            assert forall|w: u64, s: ScopedObjectId| #[trigger] worn@.contains_key(w) implies (#[trigger] worn@[w]@.contains(s)
                <==> worn_on(objs, w, s.packed())) by {
                if worn_on(objs, w, s.packed()) {
                    assert(keys@.contains(s.packed()));
                    let j = choose|j: int| 0 <= j < keys.len() && keys@[j] == s.packed();
                }
            }
        }
        worn
    }

    /// For each grid-wide key in `keys` that some known object carries, the
    /// scoped id of one such object, in one pass over the object table.
    pub fn scoped_by_full_keys(&self, keys: &HashSet<ObjectKey>) -> (r: HashMap<ObjectKey, ScopedObjectId>)
        ensures
            forall|key: ObjectKey| #[trigger] r@.contains_key(key) <==> (keys@.contains(key) && exists|k: u64|
                #[trigger] self.table().contains_key(k) && self.table()[k].full_key == key),
            forall|key: ObjectKey| #[trigger] r@.contains_key(key) ==> self.table().contains_key(r@[key].packed())
                && self.table()[r@[key].packed()].full_key == key,
    {
        let ghost objs = self.table();
        let mut found: HashMap<ObjectKey, ScopedObjectId> = HashMap::new();
        if keys.is_empty() {
            return found;
        }
        let all = map_keys(&self.objects);
        for i in 0..all.len()
            invariant
                objs == self.table(),
                forall|k: u64| all@.contains(k) <==> objs.contains_key(k),
                forall|key: ObjectKey| #[trigger] found@.contains_key(key) <==> (keys@.contains(key) && exists|j: int|
                    0 <= j < i && objs[#[trigger] all@[j]].full_key == key),
                forall|key: ObjectKey| #[trigger] found@.contains_key(key) ==> objs.contains_key(found@[key].packed())
                    && objs[found@[key].packed()].full_key == key,
        {
            let k = all[i];
            assert(all@.contains(k));
            let obj = self.objects.get(&k).unwrap();
            if keys.contains(&obj.full_key) {
                let s = ScopedObjectId::from_key(k);
                found.insert(obj.full_key, s);
            }
            proof {
                assert forall|key: ObjectKey| #[trigger] found@.contains_key(key) <==> (keys@.contains(key) && exists|j: int|
                    0 <= j < i + 1 && objs[#[trigger] all@[j]].full_key == key) by {
                    if keys@.contains(key) && objs[all@[i as int]].full_key == key {
                        assert(found@.contains_key(key));
                    }
                }
            }
        }
        proof {
            assert forall|key: ObjectKey| #[trigger] found@.contains_key(key) <==> (keys@.contains(key) && exists|k: u64|
                #[trigger] objs.contains_key(k) && objs[k].full_key == key) by {
                if keys@.contains(key) && exists|k: u64| #[trigger] objs.contains_key(k) && objs[k].full_key == key {
                    let k = choose|k: u64| #[trigger] objs.contains_key(k) && objs[k].full_key == key;
                    assert(all@.contains(k));
                    let j = choose|j: int| 0 <= j < all.len() && all@[j] == k;
                }
                if found@.contains_key(key) {
                    let j = choose|j: int| 0 <= j < all.len() && objs[#[trigger] all@[j]].full_key == key;
                    assert(all@.contains(all@[j]));
                }
            }
        }
        found
    }

    /// What the build floater's parameter tabs edit for one known object: its
    /// class, quantized shape, material, flag word and complete extra
    /// parameters (borrowed).
    pub fn edit_data(&self, scoped: &ScopedObjectId) -> (d: Option<ObjectEditData<'_>>)
        ensures
            d is None <==> !self.table().contains_key(scoped.packed()),
            d matches Some(data) ==> {
                let t = self.table()[scoped.packed()];
                &&& data.pcode == t.shape.pcode
                &&& data.shape@ == t.shape.shape@
                &&& data.material == t.material
                &&& data.update_flags == t.update_flags
                &&& *data.extra == t.extra
            },
    {
        match self.objects.get(&scoped.key()) {
            Some(obj) => Some(
                ObjectEditData {
                    pcode: obj.shape.pcode,
                    shape: obj.shape.shape.as_slice(),
                    material: obj.material,
                    update_flags: obj.update_flags,
                    extra: &obj.extra,
                },
            ),
            None => None,
        }
    }

    /// The wire-side facts the avatar render-cost model reads off one known
    /// prim, or `None` if it is not known.
    pub fn complexity_facts(&self, scoped: &ScopedObjectId) -> (f: Option<PrimComplexityFacts<'_>>)
        ensures
            f is None <==> !self.table().contains_key(scoped.packed()),
            f matches Some(facts) ==> {
                let t = self.table()[scoped.packed()];
                &&& facts.entity == t.entity
                &&& facts.shape@ == t.shape.shape@
                &&& facts.mesh == mesh_of(t.extra.sculpt)
                &&& facts.sculpt_map == sculpt_map_of(t.extra.sculpt)
                &&& facts.texture_entry@ == t.texture_entry@
                &&& facts.flexi == t.extra.flexible_softness is Some
                &&& facts.light == t.extra.light
                &&& facts.animated == t.animated
                &&& facts.is_root == t.is_root
                &&& facts.texture_animated == t.texture_animation is Some
            },
    {
        let obj = match self.objects.get(&scoped.key()) {
            Some(t) => t,
            None => return None,
        };
        let mesh = match obj.extra.sculpt {
            Some(SculptRef { texture: SculptOrMeshKey::Mesh(key), .. }) => Some(key),
            _ => None,
        };
        let sculpt_map = match obj.extra.sculpt {
            Some(SculptRef { texture: SculptOrMeshKey::Sculpt(key), .. }) => Some(key),
            _ => None,
        };
        Some(
            PrimComplexityFacts {
                entity: obj.entity,
                shape: obj.shape.shape.as_slice(),
                mesh,
                sculpt_map,
                texture_entry: obj.texture_entry.as_slice(),
                flexi: obj.extra.flexible_softness.is_some(),
                light: obj.extra.light,
                animated: obj.animated,
                is_root: obj.is_root,
                texture_animated: obj.texture_animation.is_some(),
            },
        )
    }

    /// The packed scoped ids of every known transitive descendant of `root`
    /// (children, grandchildren, …), each once, following the stored parent
    /// links. `root` itself is no longer known when this runs.
    fn tracked_descendants(&self, root: u64) -> (r: Vec<u64>)
        requires
            !self.table().contains_key(root),
        ensures
            r@.no_duplicates(),
            forall|k: u64| #[trigger] r@.contains(k) <==> descends_from(self.table(), root, k),
    {
        let ghost objs = self.table();
        let keys = map_keys(&self.objects);
        let mut found: Vec<u64> = Vec::new();
        let mut seen: HashSet<u64> = HashSet::new();
        let mut frontier: Vec<u64> = Vec::new();
        frontier.push(root);
        proof {
            assert(objs.dom().finite());
            assert(frontier@[0] == root);
            assert(frontier@.contains(root));
        }
        while frontier.len() > 0
            invariant
                objs == self.table(),
                objs.dom().finite(),
                !objs.contains_key(root),
                keys@.no_duplicates(),
                forall|k: u64| keys@.contains(k) <==> objs.contains_key(k),
                forall|k: u64| seen@.contains(k) <==> found@.contains(k),
                found@.no_duplicates(),
                found.len() <= objs.dom().len(),
                forall|k: u64| #[trigger] found@.contains(k) ==> objs.contains_key(k) && descends_from(objs, root, k),
                frontier@.no_duplicates(),
                forall|j: int| 0 <= j < frontier.len() ==> #[trigger] frontier@[j] == root || found@.contains(frontier@[j]),
                forall|k: u64| #[trigger] objs.contains_key(k) && !objs[k].is_root && (objs[k].parent.packed() == root
                    || found@.contains(objs[k].parent.packed())) && !frontier@.contains(objs[k].parent.packed())
                    ==> found@.contains(k),
            decreases objs.dom().len() - found.len(), frontier.len(),
        {
            let ghost frontier0 = frontier@;
            let ghost found0 = found@;
            let p = frontier.pop().unwrap();
            proof {
                assert(frontier0[frontier0.len() - 1] == p);
                assert(p == root || found0.contains(p));
                assert(frontier@ == frontier0.drop_last());
                assert(found@.take(found0.len() as int) =~= found0);
                assert(found@.skip(found0.len() as int) =~= Seq::<u64>::empty());
                assert(frontier@ =~= frontier@ + found@.skip(found0.len() as int));
            }
            let ghost fpop = frontier@;
            for i in 0..keys.len()
                invariant
                    objs == self.table(),
                    !objs.contains_key(root),
                    keys@.no_duplicates(),
                    forall|k: u64| keys@.contains(k) <==> objs.contains_key(k),
                    p == root || found0.contains(p),
                    p == root || descends_from(objs, root, p),
                    found.len() >= found0.len(),
                    found@.take(found0.len() as int) == found0,
                    frontier@ == fpop + found@.skip(found0.len() as int),
                    forall|k: u64| seen@.contains(k) <==> found@.contains(k),
                    found@.no_duplicates(),
                    forall|k: u64| #[trigger] found@.contains(k) ==> objs.contains_key(k) && descends_from(objs, root, k),
                    forall|j: int| 0 <= j < i && !objs[#[trigger] keys@[j]].is_root && objs[keys@[j]].parent.packed() == p
                        ==> found@.contains(keys@[j]),
            {
                let k = keys[i];
                assert(keys@.contains(k));
                let obj = self.objects.get(&k).unwrap();
                if !obj.is_root && obj.parent.key() == p && !seen.contains(&k) {
                    proof {
                        if p == root {
                            assert(descends_within(objs, root, k, 1));
                        } else {
                            let n = choose|n: nat| descends_within(objs, root, p, n);
                            assert(descends_within(objs, root, k, n + 1));
                        }
                        assert(descends_from(objs, root, k));
                    }
                    let ghost before = found@;
                    seen.insert(k);
                    found.push(k);
                    frontier.push(k);
                    proof {
                        assert(found@ == before.push(k));
                        assert forall|x: u64| found@.contains(x) <==> (before.contains(x) || x == k) by {
                            if before.contains(x) {
                                let y = choose|y: int| 0 <= y < before.len() && before[y] == x;
                                assert(found@[y] == x);
                            }
                            if x == k {
                                assert(found@[before.len() as int] == x);
                            }
                            if found@.contains(x) && x != k {
                                let y = choose|y: int| 0 <= y < found.len() && found@[y] == x;
                                assert(before[y] == x);
                            }
                        }
                        assert forall|x: u64| #[trigger] found@.contains(x) implies objs.contains_key(x) && descends_from(objs, root, x) by {
                            if x != k {
                                assert(before.contains(x));
                            }
                        }
                        assert(found@.take(found0.len() as int) =~= before.take(found0.len() as int));
                        assert(found@.skip(found0.len() as int) =~= before.skip(found0.len() as int).push(k));
                        assert forall|a: int, b: int| 0 <= a < found.len() && 0 <= b < found.len() && a != b
                            implies found@[a] != found@[b] by {
                            if a < before.len() && b < before.len() {
                            } else if a < before.len() {
                                assert(before.contains(found@[a]));
                            } else {
                                assert(before.contains(found@[b]));
                            }
                        }
                        assert forall|j: int| 0 <= j < i + 1 && !objs[#[trigger] keys@[j]].is_root && objs[keys@[j]].parent.packed() == p
                            implies found@.contains(keys@[j]) by {
                            if j < i {
                                let y = choose|y: int| 0 <= y < before.len() && before[y] == keys@[j];
                                assert(found@[y] == before[y]);
                            } else {
                                assert(found@[before.len() as int] == k);
                            }
                        }
                    }
                }
            }
            proof {
                let added = found@.skip(found0.len() as int);
                assert(found@ =~= found0 + added);
                assert forall|x: u64| #[trigger] added.contains(x) implies !found0.contains(x) && x != root by {
                    let y = choose|y: int| 0 <= y < added.len() && added[y] == x;
                    assert(found@[found0.len() + y] == x);
                    assert(found@.contains(x));
                    if found0.contains(x) {
                        let z = choose|z: int| 0 <= z < found0.len() && found0[z] == x;
                        assert(found@.take(found0.len() as int)[z] == found@[z]);
                        assert(found@[z] == x);
                    }
                }
                assert forall|a: int, b: int| 0 <= a < frontier.len() && 0 <= b < frontier.len() && a != b
                    implies frontier@[a] != frontier@[b] by {
                    if a < fpop.len() && b < fpop.len() {
                        assert(frontier0[a] != frontier0[b]);
                    } else if a < fpop.len() {
                        let x = frontier@[b];
                        assert(added.contains(x));
                        assert(frontier0[a] == root || found0.contains(frontier0[a]));
                    } else if b < fpop.len() {
                        let x = frontier@[a];
                        assert(added.contains(x));
                        assert(frontier0[b] == root || found0.contains(frontier0[b]));
                    } else {
                        assert(found@[found0.len() + (a - fpop.len())] == frontier@[a]);
                        assert(found@[found0.len() + (b - fpop.len())] == frontier@[b]);
                    }
                }
                assert forall|j: int| 0 <= j < frontier.len() implies #[trigger] frontier@[j] == root || found@.contains(frontier@[j]) by {
                    if j < fpop.len() {
                        assert(frontier0[j] == root || found0.contains(frontier0[j]));
                        if found0.contains(frontier0[j]) {
                            let z = choose|z: int| 0 <= z < found0.len() && found0[z] == frontier0[j];
                            assert(found@[z] == frontier0[j]);
                        }
                    } else {
                        assert(found@[found0.len() + (j - fpop.len())] == frontier@[j]);
                    }
                }
                assert forall|k: u64| #[trigger] objs.contains_key(k) && !objs[k].is_root && (objs[k].parent.packed() == root
                    || found@.contains(objs[k].parent.packed())) && !frontier@.contains(objs[k].parent.packed())
                    implies found@.contains(k) by {
                    let q = objs[k].parent.packed();
                    if q == p {
                        assert(keys@.contains(k));
                        let j = choose|j: int| 0 <= j < keys.len() && keys@[j] == k;
                    } else {
                        if added.contains(q) {
                            let y = choose|y: int| 0 <= y < added.len() && added[y] == q;
                            assert(frontier@[fpop.len() + y] == q);
                        }
                        assert(q == root || found0.contains(q));
                        if frontier0.contains(q) {
                            let y = choose|y: int| 0 <= y < frontier0.len() && frontier0[y] == q;
                            assert(y != frontier0.len() - 1);
                            assert(frontier@[y] == q);
                        }
                        assert(found0.contains(k));
                        let z = choose|z: int| 0 <= z < found0.len() && found0[z] == k;
                        assert(found@[z] == k);
                    }
                }
                found@.unique_seq_to_set();
                assert(found@.to_set().subset_of(objs.dom()));
                vstd::set_lib::lemma_len_subset(found@.to_set(), objs.dom());
            }
        }
        proof {
            assert forall|k: u64| descends_from(objs, root, k) implies #[trigger] found@.contains(k) by {
                let n = choose|n: nat| descends_within(objs, root, k, n);
                lemma_closed_set_holds_descendants(objs, root, found@, k, n);
            }
        }
        found
    }

    /// Forget the object `scoped` and every known descendant of it, and say
    /// what to take out of the scene: the object's entity and faces, then for
    /// each descendant its faces and — when it was never parented under the
    /// object (the engine's hierarchy removal takes the parented ones along) —
    /// its entity. The dropped ids come root first, then the descendants; both
    /// lists are empty when `scoped` is not known.
    pub fn remove_object(&mut self, scoped: ScopedObjectId) -> (r: ObjectRemoval)
        ensures
            final(self).origin == old(self).origin,
            !old(self).table().contains_key(scoped.packed()) ==> {
                &&& r.dropped@.len() == 0
                &&& r.despawn@.len() == 0
                &&& final(self).table() == old(self).table()
            },
            old(self).table().contains_key(scoped.packed()) ==> {
                let rest = old(self).table().remove(scoped.packed());
                let ds = r.dropped@.skip(1).map_values(|s: ScopedObjectId| s.packed());
                &&& r.dropped@.len() >= 1
                &&& r.dropped@[0] == scoped
                &&& r.dropped@.no_duplicates()
                &&& forall|s: ScopedObjectId| #[trigger] r.dropped@.contains(s) <==> (s == scoped
                    || descends_from(rest, scoped.packed(), s.packed()))
                &&& forall|k: u64| #[trigger] final(self).table().contains_key(k) <==> (rest.contains_key(k)
                    && !descends_from(rest, scoped.packed(), k))
                &&& forall|k: u64| #[trigger] final(self).table().contains_key(k) ==> final(self).table()[k]
                    == old(self).table()[k]
                &&& r.despawn@ == root_despawns(old(self).table()[scoped.packed()]) + children_despawns(rest, ds)
            },
            old(self).table().contains_key(scoped.packed()) ==> {
                let root = old(self).table()[scoped.packed()];
                &&& r.despawn@.contains(root.entity)
                &&& forall|j: int| 0 <= j < root.face_entities@.len() ==> r.despawn@.contains(
                    #[trigger] root.face_entities@[j],
                )
            },
            forall|s: ScopedObjectId, j: int|
                #![trigger r.dropped@.contains(s), old(self).table()[s.packed()].face_entities@[j]]
                r.dropped@.contains(s) && s != scoped && 0 <= j < old(self).table()[s.packed()].face_entities@.len()
                    ==> r.despawn@.contains(old(self).table()[s.packed()].face_entities@[j]),
            forall|s: ScopedObjectId| #[trigger]
                r.dropped@.contains(s) && s != scoped && !old(self).table()[s.packed()].parented
                    ==> r.despawn@.contains(old(self).table()[s.packed()].entity),
    {
        let root_key = scoped.key();
        let removed = match self.objects.remove(&root_key) {
            Some(t) => t,
            None => {
                return ObjectRemoval { dropped: Vec::new(), despawn: Vec::new() };
            },
        };
        let ghost rest = self.table();
        let mut despawn: Vec<Entity> = Vec::new();
        despawn.push(removed.entity);
        let mut faces = removed.face_entities;
        despawn.append(&mut faces);
        let mut dropped: Vec<ScopedObjectId> = Vec::new();
        dropped.push(scoped);
        let ds = self.tracked_descendants(root_key);
        let ghost root_part = despawn@;
        for i in 0..ds.len()
            invariant
                rest.contains_key(root_key) == false,
                self.origin == old(self).origin,
                ds@.no_duplicates(),
                forall|k: u64| #[trigger] ds@.contains(k) <==> descends_from(rest, root_key, k),
                forall|k: u64| #[trigger] self.table().contains_key(k) <==> (rest.contains_key(k) && !ds@.take(i as int).contains(k)),
                forall|k: u64| #[trigger] self.table().contains_key(k) ==> self.table()[k] == rest[k],
                dropped@ == seq![scoped] + ds@.take(i as int).map_values(|k: u64| ScopedObjectId::unpacked(k)),
                despawn@ == root_part + children_despawns(rest, ds@.take(i as int)),
        {
            let k = ds[i];
            proof {
                assert(ds@.contains(k));
                assert(!ds@.take(i as int).contains(k)) by {
                    if ds@.take(i as int).contains(k) {
                        let y = choose|y: int| 0 <= y < i && ds@.take(i as int)[y] == k;
                        assert(ds@[y] == ds@[i as int]);
                    }
                }
                let n = choose|n: nat| descends_within(rest, root_key, k, n);
                assert(rest.contains_key(k));
            }
            let ghost before = self.table();
            let entry = self.objects.remove(&k).unwrap();
            let ghost part = despawn@;
            let mut faces = entry.face_entities;
            despawn.append(&mut faces);
            if !entry.parented {
                despawn.push(entry.entity);
            }
            dropped.push(ScopedObjectId::from_key(k));
            proof {
                let t = ds@.take(i + 1);
                assert(t.drop_last() =~= ds@.take(i as int));
                assert(t.last() == k);
                assert(despawn@ =~= root_part + children_despawns(rest, t));
                assert(dropped@ =~= seq![scoped] + t.map_values(|k: u64| ScopedObjectId::unpacked(k)));
                assert forall|x: u64| #[trigger] t.contains(x) <==> (ds@.take(i as int).contains(x) || x == k) by {
                    if t.contains(x) && x != k {
                        let y = choose|y: int| 0 <= y < t.len() && t[y] == x;
                        assert(ds@.take(i as int)[y] == x);
                    }
                    if ds@.take(i as int).contains(x) {
                        let y = choose|y: int| 0 <= y < i && ds@.take(i as int)[y] == x;
                        assert(t[y] == x);
                    }
                    if x == k {
                        assert(t[i as int] == x);
                    }
                }
            }
        }
        proof {
            assert(ds@.take(ds.len() as int) =~= ds@);
            let dropped_ids = dropped@;
            assert(dropped_ids.skip(1) =~= ds@.map_values(|k: u64| ScopedObjectId::unpacked(k)));
            assert(dropped_ids.skip(1).map_values(|s: ScopedObjectId| s.packed()) =~= ds@) by {
                assert forall|j: int| 0 <= j < ds.len() implies #[trigger] ScopedObjectId::unpacked(ds@[j]).packed() == ds@[j] by {
                    lemma_unpack_pack(ds@[j]);
                }
            }
            assert forall|a: int, b: int| 0 <= a < dropped_ids.len() && 0 <= b < dropped_ids.len() && a != b
                implies dropped_ids[a] != dropped_ids[b] by {
                if a > 0 && b > 0 {
                    lemma_unpack_pack(ds@[a - 1]);
                    lemma_unpack_pack(ds@[b - 1]);
                } else if a == 0 {
                    lemma_unpack_pack(ds@[b - 1]);
                    assert(ds@.contains(ds@[b - 1]));
                    assert(rest.contains_key(ds@[b - 1]));
                    lemma_pack_unpack(scoped);
                } else {
                    lemma_unpack_pack(ds@[a - 1]);
                    assert(ds@.contains(ds@[a - 1]));
                    assert(rest.contains_key(ds@[a - 1]));
                    lemma_pack_unpack(scoped);
                }
            }
            assert forall|s: ScopedObjectId| #[trigger] dropped_ids.contains(s) <==> (s == scoped
                || descends_from(rest, root_key, s.packed())) by {
                if dropped_ids.contains(s) && s != scoped {
                    let y = choose|y: int| 0 <= y < dropped_ids.len() && dropped_ids[y] == s;
                    lemma_unpack_pack(ds@[y - 1]);
                    assert(ds@.contains(ds@[y - 1]));
                }
                if s == scoped {
                    assert(dropped_ids[0] == s);
                }
                if descends_from(rest, root_key, s.packed()) {
                    assert(ds@.contains(s.packed()));
                    let y = choose|y: int| 0 <= y < ds.len() && ds@[y] == s.packed();
                    lemma_pack_unpack(s);
                    assert(dropped_ids[y + 1] == s);
                }
            }
            let whole = despawn@;
            let root = old(self).table()[root_key];
            assert(root_part == root_despawns(root));
            assert(whole == root_part + children_despawns(rest, ds@));
            assert(whole[0] == root.entity);
            assert forall|j: int| 0 <= j < root.face_entities@.len() implies whole.contains(
                #[trigger] root.face_entities@[j],
            ) by {
                assert(whole[1 + j] == root.face_entities@[j]);
            }
            assert forall|s: ScopedObjectId| #[trigger] dropped_ids.contains(s) && s != scoped implies {
                let t = old(self).table()[s.packed()];
                &&& (forall|j: int| 0 <= j < t.face_entities@.len() ==> whole.contains(#[trigger] t.face_entities@[j]))
                &&& (!t.parented ==> whole.contains(t.entity))
            } by {
                let y = choose|y: int| 0 <= y < dropped_ids.len() && dropped_ids[y] == s;
                assert(y != 0);
                assert(ds@[y - 1] == s.packed());
                lemma_packed_injective(s, scoped);
                assert(rest[s.packed()] == old(self).table()[s.packed()]);
                law_a_removal_despawns_what_the_engine_leaves(rest, ds@, y - 1);
                let c = children_despawns(rest, ds@);
                let t = old(self).table()[s.packed()];
                assert forall|j: int| 0 <= j < t.face_entities@.len() implies whole.contains(#[trigger] t.face_entities@[j]) by {
                    assert(c.contains(t.face_entities@[j]));
                    let z = choose|z: int| 0 <= z < c.len() && c[z] == t.face_entities@[j];
                    assert(whole[root_part.len() + z] == c[z]);
                }
                if !t.parented {
                    assert(c.contains(t.entity));
                    let z = choose|z: int| 0 <= z < c.len() && c[z] == t.entity;
                    assert(whole[root_part.len() + z] == c[z]);
                }
            }
        }
        ObjectRemoval { dropped, despawn }
    }

    /// Forget every known object and the scene anchor, and say what to take out
    /// of the scene: each object's entity followed by its faces.
    pub fn purge(&mut self) -> (despawn: Vec<Entity>)
        ensures
            final(self).table() == Map::<u64, TrackedObject>::empty(),
            final(self).origin is None,
            exists|ks: Seq<u64>| #[trigger] lists_keys_once(old(self).table(), ks) && despawn@
                == all_despawns(old(self).table(), ks),
    {
        let ghost objs = self.table();
        let keys = map_keys(&self.objects);
        let mut despawn: Vec<Entity> = Vec::new();
        for i in 0..keys.len()
            invariant
                keys@.no_duplicates(),
                forall|k: u64| keys@.contains(k) <==> objs.contains_key(k),
                forall|k: u64| #[trigger] self.table().contains_key(k) <==> (objs.contains_key(k) && !keys@.take(i as int).contains(k)),
                forall|k: u64| #[trigger] self.table().contains_key(k) ==> self.table()[k] == objs[k],
                despawn@ == all_despawns(objs, keys@.take(i as int)),
        {
            let k = keys[i];
            proof {
                assert(keys@.contains(k));
                assert(!keys@.take(i as int).contains(k)) by {
                    if keys@.take(i as int).contains(k) {
                        let y = choose|y: int| 0 <= y < i && keys@.take(i as int)[y] == k;
                        assert(keys@[y] == keys@[i as int]);
                    }
                }
                assert(objs.contains_key(k));
                assert(self.table().contains_key(k));
            }
            let entry = self.objects.remove(&k).unwrap();
            despawn.push(entry.entity);
            let mut faces = entry.face_entities;
            despawn.append(&mut faces);
            proof {
                let t = keys@.take(i + 1);
                assert(t.drop_last() =~= keys@.take(i as int));
                assert(despawn@ =~= all_despawns(objs, t));
                assert forall|x: u64| #[trigger] t.contains(x) <==> (keys@.take(i as int).contains(x) || x == k) by {
                    if t.contains(x) && x != k {
                        let y = choose|y: int| 0 <= y < t.len() && t[y] == x;
                        assert(keys@.take(i as int)[y] == x);
                    }
                    if keys@.take(i as int).contains(x) {
                        let y = choose|y: int| 0 <= y < i && keys@.take(i as int)[y] == x;
                        assert(t[y] == x);
                    }
                    if x == k {
                        assert(t[i as int] == x);
                    }
                }
            }
        }
        self.objects.clear();
        self.origin = None;
        proof {
            assert(keys@.take(keys.len() as int) =~= keys@);
            assert(lists_keys_once(objs, keys@));
        }
        despawn
    }

    /// Forget the known object `scoped` when `is_alive` reports its entity gone
    /// — a linked part or attachment the engine removed along with its parent
    /// — and hand back that entity. A live entity, or an unknown object, is
    /// left alone (`None`).
    pub fn drop_stale_tracked_entity<F: Fn(Entity) -> bool>(
        &mut self,
        scoped: ScopedObjectId,
        is_alive: F,
    ) -> (r: Option<Entity>)
        requires
            forall|e: Entity| #[trigger] is_alive.requires((e,)),
        ensures
            final(self).origin == old(self).origin,
            !old(self).table().contains_key(scoped.packed()) ==> r is None && final(self).table() == old(self).table(),
            old(self).table().contains_key(scoped.packed()) ==> {
                let e = old(self).table()[scoped.packed()].entity;
                &&& r is None ==> is_alive.ensures((e,), true) && final(self).table() == old(self).table()
                &&& r is Some ==> r == Some(e) && is_alive.ensures((e,), false)
                    && final(self).table() == old(self).table().remove(scoped.packed())
            },
    {
        let key = scoped.key();
        let entity = match self.objects.get(&key) {
            Some(t) => t.entity,
            None => return None,
        };
        if is_alive(entity) {
            return None;
        }
        let _stale = self.objects.remove(&key);
        Some(entity)
    }
}

/// Whether the object under key `k` is a child prim of the linkset rooted at
/// `root`: not the root itself, not a root, not an attachment, and parented to
/// it.
pub open spec fn is_linkset_child_obj(root: u64, k: u64, t: &TrackedObject) -> bool {
    &&& k != root
    &&& !t.is_root
    &&& t.attachment_point is None
    &&& t.parent.packed() == root
}

/// Whether the known object under key `k` is a child prim of the linkset rooted
/// at `root`.
pub open spec fn is_linkset_child(objs: Map<u64, TrackedObject>, root: u64, k: u64) -> bool {
    objs.contains_key(k) && is_linkset_child_obj(root, k, &objs[k])
}

/// The ids in `v` ordered by region-local id, each kept once.
pub fn sort_by_local_id(v: Vec<ScopedObjectId>) -> (r: Vec<ScopedObjectId>)
    requires
        v@.no_duplicates(),
    ensures
        r@.len() == v@.len(),
        r@.no_duplicates(),
        forall|s: ScopedObjectId| #[trigger] r@.contains(s) <==> v@.contains(s),
        forall|a: int, b: int| 0 <= a < b < r@.len() ==> r@[a].id <= r@[b].id,
{
    let mut r: Vec<ScopedObjectId> = Vec::new();
    for i in 0..v.len()
        invariant
            v@.no_duplicates(),
            r@.len() == i,
            r@.no_duplicates(),
            forall|s: ScopedObjectId| #[trigger] r@.contains(s) <==> (exists|j: int| 0 <= j < i && v@[j] == s),
            forall|a: int, b: int| 0 <= a < b < r@.len() ==> r@[a].id <= r@[b].id,
    {
        let x = v[i];
        let mut p: usize = 0;
        while p < r.len() && r[p].id <= x.id
            invariant
                p <= r.len(),
                forall|a: int| 0 <= a < p ==> r@[a].id <= x.id,
            decreases r.len() - p,
        {
            p = p + 1;
        }
        proof {
            assert forall|s: ScopedObjectId| r@.contains(s) implies s != x by {
                let j = choose|j: int| 0 <= j < i && v@[j] == s;
                assert(v@[j] != v@[i as int]);
            }
        }
        let ghost before = r@;
        r.insert(p, x);
        proof {
            assert(r@ == before.insert(p as int, x));
            assert forall|a: int, b: int| 0 <= a < b < r@.len() implies r@[a].id <= r@[b].id by {
                if b < p {
                } else if b == p {
                } else if a < p {
                    assert(r@[b] == before[b - 1]);
                } else if a == p {
                    assert(r@[b] == before[b - 1]);
                    assert(before[p as int].id > x.id);
                    if b - 1 > p {
                        assert(before[p as int].id <= before[b - 1].id);
                    }
                } else {
                    assert(r@[a] == before[a - 1]);
                    assert(r@[b] == before[b - 1]);
                }
            }
            assert forall|a: int, b: int| 0 <= a < r.len() && 0 <= b < r.len() && a != b
                implies r@[a] != r@[b] by {
                if a != p && b != p {
                    let a0 = if a < p { a } else { a - 1 };
                    let b0 = if b < p { b } else { b - 1 };
                    assert(r@[a] == before[a0]);
                    assert(r@[b] == before[b0]);
                } else if a == p {
                    let b0 = if b < p { b } else { b - 1 };
                    assert(before.contains(before[b0]));
                } else {
                    let a0 = if a < p { a } else { a - 1 };
                    assert(before.contains(before[a0]));
                }
            }
            assert forall|s: ScopedObjectId| #[trigger] r@.contains(s) <==> (exists|j: int| 0 <= j < i + 1 && v@[j] == s) by {
                if r@.contains(s) {
                    let y = choose|y: int| 0 <= y < r.len() && r@[y] == s;
                    if y != p {
                        let y0 = if y < p { y } else { y - 1 };
                        assert(before[y0] == s);
                        assert(before.contains(s));
                    } else {
                        assert(v@[i as int] == s);
                    }
                }
                if exists|j: int| 0 <= j < i + 1 && v@[j] == s {
                    let j = choose|j: int| 0 <= j < i + 1 && v@[j] == s;
                    if j == i {
                        assert(r@[p as int] == s);
                    } else {
                        assert(before.contains(s));
                        let y = choose|y: int| 0 <= y < before.len() && before[y] == s;
                        if y < p {
                            assert(r@[y] == s);
                        } else {
                            assert(r@[y + 1] == s);
                        }
                    }
                }
            }
        }
    }
    proof {
        assert forall|s: ScopedObjectId| #[trigger] r@.contains(s) <==> v@.contains(s) by {
            if v@.contains(s) {
                let j = choose|j: int| 0 <= j < v.len() && v@[j] == s;
            }
        }
    }
    r

}

/// Whether the known object under key `k` belongs on the minimap's object
/// layer: not an avatar, and not worn.
pub open spec fn on_minimap(objs: Map<u64, TrackedObject>, k: u64) -> bool {
    &&& objs.contains_key(k)
    &&& objs[k].shape.pcode != PCODE_AVATAR
    &&& objs[walk_root(objs, k, MAX_PARENT_WALK as nat)].attachment_point is None
}

/// Whether `ks` lists every key on the minimap's object layer, each once.
pub open spec fn lists_minimap_keys(objs: Map<u64, TrackedObject>, ks: Seq<u64>) -> bool {
    &&& ks.no_duplicates()
    &&& forall|k: u64| ks.contains(k) <==> on_minimap(objs, k)
}

/// The minimap's entry for the object under key `k`: its entity and the flag
/// word gathered up its linkset chain.
pub open spec fn minimap_entry(objs: Map<u64, TrackedObject>, k: u64) -> (Entity, u32) {
    (objs[k].entity, walk_flags(objs, k, MAX_PARENT_WALK as nat))
}

/// Whether the known object under key `k` is a worn, non-HUD attachment root
/// hanging on the avatar object whose packed scoped id is `w`.
pub open spec fn worn_on(objs: Map<u64, TrackedObject>, w: u64, k: u64) -> bool {
    &&& objs.contains_key(k)
    &&& objs[k].attachment_point matches Some(point) && !spec_is_hud_point(point)
    &&& objs[k].parent.packed() == w
}

/// What [`ObjectState::edit_data`] reports for one known object — the
/// last-received wire-side state the build floater's parameter tabs edit.
#[derive(Debug, Clone, Copy)]
pub struct ObjectEditData<'a> {
    /// The object class byte; only a plain volume prim is shape-editable.
    pub pcode: u8,
    /// The quantized path / profile shape parameters.
    pub shape: &'a [u8],
    /// The physical-material byte.
    pub material: u8,
    /// The object's flag word.
    pub update_flags: u32,
    /// The object's complete extra parameters.
    pub extra: &'a ExtraParams,
}

/// The wire-side facts [`ObjectState::complexity_facts`] surfaces for the
/// avatar render-cost model.
#[derive(Debug, Clone, Copy)]
pub struct PrimComplexityFacts<'a> {
    /// The prim's scene entity.
    pub entity: Entity,
    /// The prim's quantized shape parameters.
    pub shape: &'a [u8],
    /// The mesh asset when the prim is a mesh.
    pub mesh: Option<u128>,
    /// The sculpt map when the prim is a legacy sculpt.
    pub sculpt_map: Option<TextureKey>,
    /// The prim's raw texture entry.
    pub texture_entry: &'a [u8],
    /// Whether the prim is flexible.
    pub flexi: bool,
    /// Whether the prim emits light.
    pub light: bool,
    /// Whether the prim is an animated object.
    pub animated: bool,
    /// Whether the prim is a linkset root.
    pub is_root: bool,
    /// Whether the prim carries a texture animation.
    pub texture_animated: bool,
}

/// Whether the known object under key `k` hangs below `root` through at most
/// `n` parent links, every one of them a non-root object.
pub open spec fn descends_within(objs: Map<u64, TrackedObject>, root: u64, k: u64, n: nat) -> bool
    decreases n,
{
    n > 0 && objs.contains_key(k) && !objs[k].is_root && (objs[k].parent.packed() == root
        || descends_within(objs, root, objs[k].parent.packed(), (n - 1) as nat))
}

/// Whether the known object under key `k` is a transitive descendant of `root`.
pub open spec fn descends_from(objs: Map<u64, TrackedObject>, root: u64, k: u64) -> bool {
    exists|n: nat| descends_within(objs, root, k, n)
}

/// A set of keys that holds every known non-root child of `root` and of each
/// of its members holds every descendant of `root`.
proof fn lemma_closed_set_holds_descendants(
    objs: Map<u64, TrackedObject>,
    root: u64,
    found: Seq<u64>,
    k: u64,
    n: nat,
)
    requires
        descends_within(objs, root, k, n),
        forall|x: u64| #[trigger] objs.contains_key(x) && !objs[x].is_root && (objs[x].parent.packed() == root
            || found.contains(objs[x].parent.packed())) ==> found.contains(x),
    ensures
        found.contains(k),
    decreases n,
{
    let q = objs[k].parent.packed();
    if q != root {
        lemma_closed_set_holds_descendants(objs, root, found, q, (n - 1) as nat);
    }
    assert(objs.contains_key(k));
}

/// What [`ObjectState::remove_object`] dropped and what leaves the scene.
#[derive(Debug)]
pub struct ObjectRemoval {
    /// Every scoped id dropped: the removed object first, then its known
    /// descendants.
    pub dropped: Vec<ScopedObjectId>,
    /// The entities to take out of the scene, in order.
    pub despawn: Vec<Entity>,
}

/// What leaves the scene with a removed object itself: its entity (the engine
/// takes its parented children along) and its faces.
pub open spec fn root_despawns(t: TrackedObject) -> Seq<Entity> {
    seq![t.entity] + t.face_entities@
}

/// What leaves the scene with a removed descendant: its faces, and its entity
/// when it was never parented (so the engine did not take it along).
pub open spec fn child_despawns(t: TrackedObject) -> Seq<Entity> {
    if t.parented {
        t.face_entities@
    } else {
        t.face_entities@.push(t.entity)
    }
}

/// What leaves the scene with the descendants under keys `ks`, in order.
pub open spec fn children_despawns(objs: Map<u64, TrackedObject>, ks: Seq<u64>) -> Seq<Entity>
    decreases ks.len(),
{
    if ks.len() == 0 {
        Seq::empty()
    } else {
        children_despawns(objs, ks.drop_last()) + child_despawns(objs[ks.last()])
    }
}

/// Every entity a removed descendant leaves behind is taken out: its faces
/// always, and its own entity whenever it was never parented (the engine's
/// hierarchy removal only takes parented entities along).
pub proof fn law_a_removal_despawns_what_the_engine_leaves(objs: Map<u64, TrackedObject>, ks: Seq<u64>, i: int)
    requires
        0 <= i < ks.len(),
    ensures
        forall|j: int| 0 <= j < objs[ks[i]].face_entities@.len() ==> children_despawns(objs, ks).contains(
            #[trigger] objs[ks[i]].face_entities@[j],
        ),
        !objs[ks[i]].parented ==> children_despawns(objs, ks).contains(objs[ks[i]].entity),
    decreases ks.len(),
{
    let init = ks.drop_last();
    let prefix = children_despawns(objs, init);
    let whole = children_despawns(objs, ks);
    assert(whole == prefix + child_despawns(objs[ks.last()]));
    if i == ks.len() - 1 {
        let t = objs[ks[i]];
        let c = child_despawns(t);
        assert forall|j: int| 0 <= j < t.face_entities@.len() implies whole.contains(#[trigger] t.face_entities@[j]) by {
            assert(c[j] == t.face_entities@[j]);
            assert(whole[prefix.len() + j] == c[j]);
        }
        if !t.parented {
            assert(c[c.len() - 1] == t.entity);
            assert(whole[prefix.len() + c.len() - 1] == t.entity);
        }
    } else {
        law_a_removal_despawns_what_the_engine_leaves(objs, init, i);
        assert(init[i] == ks[i]);
        let t = objs[ks[i]];
        assert forall|j: int| 0 <= j < t.face_entities@.len() implies whole.contains(#[trigger] t.face_entities@[j]) by {
            assert(prefix.contains(t.face_entities@[j]));
            let z = choose|z: int| 0 <= z < prefix.len() && prefix[z] == t.face_entities@[j];
            assert(whole[z] == prefix[z]);
        }
        if !t.parented {
            assert(prefix.contains(t.entity));
            let z = choose|z: int| 0 <= z < prefix.len() && prefix[z] == t.entity;
            assert(whole[z] == prefix[z]);
        }
    }
}

/// What leaves the scene with every object under keys `ks`, in order.
pub open spec fn all_despawns(objs: Map<u64, TrackedObject>, ks: Seq<u64>) -> Seq<Entity>
    decreases ks.len(),
{
    if ks.len() == 0 {
        Seq::empty()
    } else {
        all_despawns(objs, ks.drop_last()) + root_despawns(objs[ks.last()])
    }
}

/// Whether `ks` lists every key of `objs`, each once.
pub open spec fn lists_keys_once(objs: Map<u64, TrackedObject>, ks: Seq<u64>) -> bool {
    &&& ks.no_duplicates()
    &&& forall|k: u64| ks.contains(k) <==> objs.contains_key(k)
}

} // verus!

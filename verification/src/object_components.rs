//! State the input, HUD, typing and texture paths keep beside the object
//! entities: who owns input this frame, the HUD point nodes, the render
//! classification of a scene object, the typing edge advertised to the
//! simulator, and the store of decoded textures everything that shows one
//! reads.

use crate::collections::map_keys;
use crate::ids::{Entity, ScopedObjectId, TextureKey};
use crate::text::{parse_usize, parsed_usize};
use std::collections::HashMap;
use vstd::prelude::*;

verus! {

broadcast use vstd::std_specs::hash::group_hash_axioms;

/// Who input belongs to this frame.
#[derive(Debug, Clone, Copy, PartialEq, Eq, Structural)]
pub enum InputContext {
    /// Nothing in the UI holds focus: the world has the keyboard and the mouse.
    World,
    /// A focusable UI node that does not take text holds focus: `Enter` and
    /// `Space` activate it, and the world gets no keys.
    UiWidget,
    /// A text-accepting node holds focus; the world gets nothing.
    TextEntry,
    /// An in-world media face holds keyboard focus; keys go to the page.
    Media,
}

impl Default for InputContext {
    /// The world.
    fn default() -> (c: InputContext)
        ensures
            c == InputContext::World,
    {
        InputContext::World
    }
}

impl InputContext {
    /// Whether the world owns input right now.
    pub fn is_world(self) -> (b: bool)
        ensures
            b <==> self == InputContext::World,
    {
        match self {
            InputContext::World => true,
            _ => false,
        }
    }
}

/// The spawned HUD point nodes, keyed by raw attachment-point id. Empty when
/// there is no HUD screen (no avatar assets).
#[derive(Debug)]
pub struct HudState {
    /// The HUD point node entities, keyed by raw attachment-point id.
    pub points: HashMap<u8, Entity>,
}

impl HudState {
    /// No HUD screen.
    pub fn new() -> (h: HudState)
        ensures
            h.points@ == Map::<u8, Entity>::empty(),
    {
        HudState { points: HashMap::new() }
    }

    /// The node a HUD attachment worn on `point_id` parents to, or `None` if
    /// there is no HUD screen or the id is not a HUD point.
    pub fn point_entity(&self, point_id: u8) -> (e: Option<Entity>)
        ensures
            e == (if self.points@.contains_key(point_id) {
                Some(self.points@[point_id])
            } else {
                None
            }),
    {
        match self.points.get(&point_id) {
            Some(e) => Some(*e),
            None => None,
        }
    }
}

/// The broad render classification of an in-world object, decided from its
/// `pcode` and sculpt / mesh parameters.
#[derive(Debug, Clone, Copy, PartialEq, Eq, Structural)]
pub enum ObjectCategory {
    /// An avatar.
    Avatar,
    /// A plain volume prim.
    Prim,
    /// A sculpted prim.
    Sculpt,
    /// A mesh object.
    Mesh,
    /// A Linden tree.
    Tree,
    /// A Linden grass clump.
    Grass,
    /// Anything else.
    Other,
}

/// What tags an entity as an in-world object: its scoped id and render
/// classification.
#[derive(Debug, Clone, Copy)]
pub struct SceneObject {
    /// The object's scoped (circuit + region-local) id.
    pub scoped_id: ScopedObjectId,
    /// The object's render classification.
    pub category: ObjectCategory,
}

/// Whether the own avatar is typing into local chat, and what the simulator
/// was last told.
#[derive(Debug)]
pub struct TypingState {
    /// Whether typing is active this frame.
    active: bool,
    /// The `active` value last advertised to the simulator.
    advertised: bool,
}

impl TypingState {
    /// Whether typing is active.
    pub closed spec fn spec_active(&self) -> bool {
        self.active
    }

    /// What the simulator was last told.
    pub closed spec fn spec_advertised(&self) -> bool {
        self.advertised
    }

    /// Not typing, and the simulator told so.
    pub fn new() -> (t: TypingState)
        ensures
            !t.spec_active(),
            !t.spec_advertised(),
    {
        TypingState { active: false, advertised: false }
    }

    /// Whether the own avatar is typing this frame.
    pub fn is_active(&self) -> (b: bool)
        ensures
            b == self.spec_active(),
    {
        self.active
    }

    /// Record the typing intent; the wire edge is reconciled separately.
    pub fn set(&mut self, active: bool)
        ensures
            final(self).spec_active() == active,
            final(self).spec_advertised() == old(self).spec_advertised(),
    {
        self.active = active;
    }

    /// Take the un-advertised typing edge: `Some(active)` the first time the
    /// state differs from what the simulator was last told, `None` when it
    /// does not. Taking it records it as advertised.
    pub fn take_edge(&mut self) -> (edge: Option<bool>)
        ensures
            edge == (if old(self).spec_active() == old(self).spec_advertised() {
                None
            } else {
                Some(old(self).spec_active())
            }),
            final(self).spec_active() == old(self).spec_active(),
            final(self).spec_advertised() == old(self).spec_active(),
    {
        if self.active == self.advertised {
            None
        } else {
            self.advertised = self.active;
            Some(self.active)
        }
    }
}

impl Default for TypingState {
    /// Not typing.
    fn default() -> (t: TypingState)
        ensures
            !t.spec_active(),
            !t.spec_advertised(),
    {
        TypingState::new()
    }
}

/// An edge is taken once: right after one is taken, there is none to take
/// until the typing state changes again.
pub proof fn law_a_typing_edge_is_taken_once(before: TypingState, after: TypingState)
    requires
        after.spec_active() == before.spec_active(),
        after.spec_advertised() == before.spec_active(),
    ensures
        after.spec_active() == after.spec_advertised(),
{
}

/// The id a glTF material override uses for "no texture here".
pub const GLTF_OVERRIDE_NULL_UUID: u128 = 0xffff_ffff_ffff_ffff_ffff_ffff_ffff_ffffu128;

/// Whether a face texture id stands for no diffuse texture: the nil id or the
/// glTF override-null sentinel.
pub open spec fn absent_texture(id: TextureKey) -> bool {
    id == 0 || id == GLTF_OVERRIDE_NULL_UUID
}

/// Whether a face texture id denotes "no diffuse texture", so it should
/// neither be fetched nor treated as a textured face.
pub fn is_absent_texture(id: TextureKey) -> (b: bool)
    ensures
        b == absent_texture(id),
{
    id == 0 || id == GLTF_OVERRIDE_NULL_UUID
}

/// The state of a face's diffuse image: no texture, not decoded yet, or the
/// image (of handle type `H`) ready to paint.
#[derive(Debug, Clone)]
pub enum DiffuseImage<H> {
    /// The face carries no texture; clear the material's texture.
    Absent,
    /// The texture exists but has not decoded yet; keep the current image.
    Pending,
    /// The decoded image, uploaded.
    Ready(H),
}

/// Successfully decoded textures by id, of image type `T`, shared by every
/// consumer that shows one.
#[derive(Debug)]
pub struct DecodedTextures<T> {
    /// Decoded images by texture id.
    decoded: HashMap<TextureKey, T>,
}

impl<T> DecodedTextures<T> {
    /// The decoded images by id.
    pub closed spec fn images(&self) -> Map<TextureKey, T> {
        self.decoded@
    }

    /// Nothing decoded yet.
    pub fn new() -> (d: DecodedTextures<T>)
        ensures
            d.images() == Map::<TextureKey, T>::empty(),
    {
        DecodedTextures { decoded: HashMap::new() }
    }

    /// The decoded image for `id`, or `None` while it is in flight or failed.
    pub fn get(&self, id: TextureKey) -> (r: Option<&T>)
        ensures
            match r {
                Some(t) => self.images().contains_key(id) && self.images()[id] == *t,
                None => !self.images().contains_key(id),
            },
    {
        self.decoded.get(&id)
    }

    /// Whether `id` has decoded.
    pub fn contains(&self, id: TextureKey) -> (b: bool)
        ensures
            b == self.images().contains_key(id),
    {
        self.decoded.contains_key(&id)
    }

    /// Every decoded texture's id, each once, for the diagnostics and cost
    /// models that walk the whole store.
    pub fn ids(&self) -> (r: Vec<TextureKey>)
        ensures
            r@.no_duplicates(),
            forall|id: TextureKey| r@.contains(id) <==> self.images().contains_key(id),
    {
        map_keys(&self.decoded)
    }

    /// How many textures have decoded.
    pub fn len(&self) -> (n: usize)
        ensures
            n == self.images().len(),
    {
        self.decoded.len()
    }

    /// Whether nothing has decoded yet.
    pub fn is_empty(&self) -> (b: bool)
        ensures
            b == (self.images().len() == 0),
    {
        self.decoded.len() == 0
    }

    /// Record a freshly decoded image, returning the one it replaced.
    pub fn insert(&mut self, id: TextureKey, image: T) -> (replaced: Option<T>)
        ensures
            final(self).images() == old(self).images().insert(id, image),
            replaced == (if old(self).images().contains_key(id) {
                Some(old(self).images()[id])
            } else {
                None
            }),
    {
        self.decoded.insert(id, image)
    }

    /// Drop a texture's decoded image, returning it if there was one.
    pub fn remove(&mut self, id: TextureKey) -> (removed: Option<T>)
        ensures
            final(self).images() == old(self).images().remove(id),
            removed == (if old(self).images().contains_key(id) {
                Some(old(self).images()[id])
            } else {
                None
            }),
    {
        self.decoded.remove(&id)
    }

    /// Classify a diffuse texture for a consumer that paints it onto a
    /// material directly: absent for a nil / sentinel id, ready (uploaded by
    /// `upload`) once decoded, pending otherwise.
    pub fn diffuse_image<H, F: Fn(&T) -> H>(&self, id: TextureKey, upload: F) -> (r: DiffuseImage<H>)
        requires
            forall|t: T| #[trigger] upload.requires((&t,)),
        ensures
            absent_texture(id) ==> r is Absent,
            !absent_texture(id) && self.images().contains_key(id) ==> (r matches DiffuseImage::Ready(h)
                && upload.ensures((&self.images()[id],), h)),
            !absent_texture(id) && !self.images().contains_key(id) ==> r is Pending,
    {
        if is_absent_texture(id) {
            DiffuseImage::Absent
        } else {
            match self.decoded.get(&id) {
                Some(decoded) => DiffuseImage::Ready(upload(decoded)),
                None => DiffuseImage::Pending,
            }
        }
    }
}

/// A positive per-frame budget from the text of a setting (an environment
/// variable, say): its number when it is one and not zero, else `default`.
pub fn budget_from(value: Option<&str>, default: usize) -> (budget: usize)
    ensures
        budget == match value {
            Some(text) => match parsed_usize(text@) {
                Some(n) => if n > 0 {
                    n
                } else {
                    default
                },
                None => default,
            },
            None => default,
        },
{
    match value {
        Some(text) => match parse_usize(text) {
            Some(n) => if n > 0 {
                n
            } else {
                default
            },
            None => default,
        },
        None => default,
    }
}

impl Default for HudState {
    /// No HUD screen.
    fn default() -> (h: HudState)
        ensures
            h.points@ == Map::<u8, Entity>::empty(),
    {
        HudState::new()
    }
}

impl<T> Default for DecodedTextures<T> {
    /// Nothing decoded yet.
    fn default() -> (d: DecodedTextures<T>)
        ensures
            d.images() == Map::<TextureKey, T>::empty(),
    {
        DecodedTextures::new()
    }
}

} // verus!

//! World state the world's own layers share: the camera mode, the texture
//! priority bands, and the derender blacklist with the friends-only filter that
//! shares its suppression index.

use crate::ids::{AgentKey, Entity, ObjectKey, ScopedObjectId, Uuid};
use crate::ids::{lemma_pack_unpack, lemma_unpack_pack};
use crate::collections::map_keys;
use std::collections::HashMap;
use std::collections::HashSet;
use vstd::prelude::*;

verus! {

broadcast use vstd::std_specs::hash::group_hash_axioms;

/// The camera mode: one of the three the viewer camera cycles between.
#[derive(Clone, Copy, Debug, PartialEq, Eq, Structural)]
pub enum CameraMode {
    /// First-person: at the eyes, mouse aims, cursor captured.
    Mouselook,
    /// Orbiting third-person around the focus (the default).
    ThirdPerson,
    /// Free spectator camera.
    Flycam,
}

impl Default for CameraMode {
    /// Third person.
    fn default() -> (m: CameraMode)
        ensures
            m == CameraMode::ThirdPerson,
    {
        CameraMode::ThirdPerson
    }
}

/// Whether the own avatar's body stays drawn in mouselook. The head never is,
/// from inside it; with the body hidden nothing of the avatar is drawn.
#[derive(Clone, Copy, Debug, PartialEq, Eq, Structural)]
pub struct FirstPersonAvatarVisible(pub bool);

impl Default for FirstPersonAvatarVisible {
    /// Shown.
    fn default() -> (v: FirstPersonAvatarVisible)
        ensures
            v.0,
    {
        FirstPersonAvatarVisible(true)
    }
}

/// Which overlay layer a camera draws over the world camera's frame.
#[derive(Clone, Copy, Debug, PartialEq, Eq, Structural)]
pub enum OverlayCamera {
    /// The edit-tool gizmo overlay.
    Gizmos,
    /// The HUD-attachment layer, which also carries the user interface.
    HudAndUi,
}

/// Marks an entity that draws a second copy of another entity's skinned
/// geometry, naming the entity whose pose it must be drawn at.
#[derive(Clone, Copy, Debug, PartialEq, Eq, Structural)]
pub struct SkinPoseTwin {
    /// The skinned entity whose pose this one must be drawn at.
    pub source: Entity,
}

/// The top of the pixel-area priority range; boost priorities sit strictly
/// above it.
pub const PIXEL_AREA_CAP: u32 = 4194304;

/// The boost priority of a region's terrain detail textures: one step into the
/// boost band.
pub const TERRAIN_BOOST_PRIORITY: u32 = 4194305;

/// The boost priority of an avatar's textures and bakes: above terrain.
pub const AVATAR_BOOST_PRIORITY: u32 = 4194306;

/// The boost priority of the sky's textures: one step above the avatar boost.
pub const SKY_BOOST_PRIORITY: u32 = 4194307;

/// A posed slot's identity: a rigged avatar by its wearer, an animated object
/// by its root, or a synthetic crowd copy by its index.
#[derive(Clone, Copy, Debug, PartialEq, Eq, Structural, Hash)]
pub enum PoseSlotKey {
    /// A rigged avatar, keyed by its wearer agent.
    Avatar(AgentKey),
    /// An animated object's control avatar, keyed by its root object.
    Animesh(ObjectKey),
    /// A synthetic crowd copy of the local avatar, keyed by its index.
    Crowd(u32),
}

/// What kind of thing a blacklist entry names. The two in-world kinds are what
/// the scene mirror suppresses; the asset kinds are refused at their point of
/// use.
#[derive(Clone, Copy, Debug, PartialEq, Eq, Structural)]
pub enum DerenderKind {
    /// An in-world object.
    Object,
    /// An avatar.
    Resident,
    /// A sound asset, never played.
    Sound,
    /// An animation asset, never run.
    Animation,
    /// A texture asset, never fetched.
    Texture,
}

impl DerenderKind {
    /// The message key naming this kind in the blacklist's Type column.
    pub fn label_key(self) -> (k: &'static str)
        ensures
            k@ == match self {
                DerenderKind::Object => "derender-type-object"@,
                DerenderKind::Resident => "derender-type-resident"@,
                DerenderKind::Sound => "derender-type-sound"@,
                DerenderKind::Animation => "derender-type-animation"@,
                DerenderKind::Texture => "derender-type-texture"@,
            },
    {
        match self {
            DerenderKind::Object => "derender-type-object",
            DerenderKind::Resident => "derender-type-resident",
            DerenderKind::Sound => "derender-type-sound",
            DerenderKind::Animation => "derender-type-animation",
            DerenderKind::Texture => "derender-type-texture",
        }
    }

    /// The sort rank of a kind.
    pub open spec fn spec_rank(self) -> u8 {
        match self {
            DerenderKind::Object => 0,
            DerenderKind::Resident => 1,
            DerenderKind::Sound => 2,
            DerenderKind::Animation => 3,
            DerenderKind::Texture => 4,
        }
    }

    /// A stable sort rank, so the Type column orders deterministically.
    #[verifier::when_used_as_spec(spec_rank)]
    pub fn rank(self) -> (r: u8)
        ensures
            r == self.spec_rank(),
    {
        match self {
            DerenderKind::Object => 0,
            DerenderKind::Resident => 1,
            DerenderKind::Sound => 2,
            DerenderKind::Animation => 3,
            DerenderKind::Texture => 4,
        }
    }

    /// Whether a kind names something the scene mirror suppresses.
    pub open spec fn spec_is_in_world(self) -> bool {
        self is Object || self is Resident
    }

    /// Whether this kind names something the scene mirror suppresses (as
    /// opposed to an asset refused at its point of use).
    #[verifier::when_used_as_spec(spec_is_in_world)]
    pub fn is_in_world(self) -> (b: bool)
        ensures
            b == self.spec_is_in_world(),
    {
        match self {
            DerenderKind::Object | DerenderKind::Resident => true,
            _ => false,
        }
    }
}

/// Two kinds rank alike exactly when they are the same kind, so the rank is a
/// total order on kinds.
pub proof fn law_rank_tells_kinds_apart(a: DerenderKind, b: DerenderKind)
    ensures
        a.spec_rank() == b.spec_rank() <==> a == b,
{
}

/// The in-world kinds are exactly objects and residents: an id is listed as
/// something the scene must not draw when, and only when, it is listed as an
/// object or as an avatar — a sound, animation or texture entry never hides
/// anything in the scene.
pub proof fn law_objects_and_residents_are_in_world(entries: Seq<DerenderEntry>, id: Uuid)
    ensures
        listed_in_world(entries, id) <==> (listed_as(entries, id, DerenderKind::Object) || listed_as(
            entries,
            id,
            DerenderKind::Resident,
        )),
{
    if listed_as(entries, id, DerenderKind::Resident) {
        let i = choose|i: int| 0 <= i < entries.len() && #[trigger] entries[i].id == id && entries[i].kind
            == DerenderKind::Resident;
        assert(entries[i].kind.spec_is_in_world());
    }
    if listed_as(entries, id, DerenderKind::Object) {
        let i = choose|i: int| 0 <= i < entries.len() && #[trigger] entries[i].id == id && entries[i].kind
            == DerenderKind::Object;
        assert(entries[i].kind.spec_is_in_world());
    }
    if listed_in_world(entries, id) {
        let i = choose|i: int| 0 <= i < entries.len() && #[trigger] entries[i].id == id
            && entries[i].kind.spec_is_in_world();
        assert(entries[i].kind == DerenderKind::Object || entries[i].kind == DerenderKind::Resident);
    }
}

/// One blacklist entry: what was derendered, where and when.
#[derive(Debug, Clone)]
pub struct DerenderEntry {
    /// The derendered thing's persistent id.
    pub id: Uuid,
    /// Its name, as the surface that derendered it knew it (may be empty).
    pub name: String,
    /// The region it was derendered in (empty when unknown).
    pub region: String,
    /// What kind of thing it is.
    pub kind: DerenderKind,
    /// Whether it survives a teleport and a relog, or is session-only.
    pub permanent: bool,
    /// When it was added, as Unix epoch seconds.
    pub added_epoch_secs: i64,
}

/// Why a region-scoped id is suppressed — which release frees it again.
#[derive(Clone, Copy, Debug, PartialEq, Eq, Structural)]
pub enum HiddenBy {
    /// The blacklist entry with this id.
    Blacklist(Uuid),
    /// The friends-only filter, hiding this non-friend agent.
    FriendsOnly(Uuid),
}

impl HiddenBy {
    /// The persistent id at the root of a suppression.
    pub open spec fn spec_id(self) -> Uuid {
        match self {
            HiddenBy::Blacklist(id) => id,
            HiddenBy::FriendsOnly(id) => id,
        }
    }

    /// The persistent id at the root of this suppression — a blacklist entry's
    /// id, or the hidden agent's.
    #[verifier::when_used_as_spec(spec_id)]
    pub fn id(self) -> (id: Uuid)
        ensures
            id == self.spec_id(),
    {
        match self {
            HiddenBy::Blacklist(id) => id,
            HiddenBy::FriendsOnly(id) => id,
        }
    }
}

/// Whether some entry of `entries` has id `id`.
pub open spec fn listed(entries: Seq<DerenderEntry>, id: Uuid) -> bool {
    exists|i: int| 0 <= i < entries.len() && #[trigger] entries[i].id == id
}

/// Whether some entry of `entries` has id `id` and kind `kind`.
pub open spec fn listed_as(entries: Seq<DerenderEntry>, id: Uuid, kind: DerenderKind) -> bool {
    exists|i: int| 0 <= i < entries.len() && #[trigger] entries[i].id == id && entries[i].kind == kind
}

/// Whether some entry of `entries` has id `id` and an in-world kind.
pub open spec fn listed_in_world(entries: Seq<DerenderEntry>, id: Uuid) -> bool {
    exists|i: int| 0 <= i < entries.len() && #[trigger] entries[i].id == id && entries[i].kind.spec_is_in_world()
}

/// Whether no two entries share an id.
pub open spec fn ids_unique(entries: Seq<DerenderEntry>) -> bool {
    forall|i: int, j: int| 0 <= i < j < entries.len() ==> #[trigger] entries[i].id != #[trigger] entries[j].id
}

/// The revision after `r`: one more, wrapping at the top.
pub open spec fn next_revision(r: u64) -> u64 {
    if r == u64::MAX {
        0
    } else {
        (r + 1) as u64
    }
}

/// The revision after `r`.
pub(crate) fn bump(r: u64) -> (n: u64)
    ensures
        n == next_revision(r),
{
    r.wrapping_add(1)
}

/// Whether the suppression index went from `old_hidden` to `new_hidden` by
/// dropping exactly the ids whose root `pred` accepts, and the re-fetch queue
/// went from `old_refetch` to `new_refetch` by gaining exactly those ids, each
/// once.
pub open spec fn releases(
    old_hidden: Map<u64, HiddenBy>,
    new_hidden: Map<u64, HiddenBy>,
    old_refetch: Seq<ScopedObjectId>,
    new_refetch: Seq<ScopedObjectId>,
    pred: spec_fn(HiddenBy) -> bool,
) -> bool {
    &&& forall|k: u64| #[trigger] new_hidden.contains_key(k) <==> (old_hidden.contains_key(k) && !pred(old_hidden[k]))
    &&& forall|k: u64| #[trigger] new_hidden.contains_key(k) ==> new_hidden[k] == old_hidden[k]
    &&& new_refetch.len() >= old_refetch.len()
    &&& new_refetch.take(old_refetch.len() as int) == old_refetch
    &&& new_refetch.skip(old_refetch.len() as int).no_duplicates()
    &&& forall|s: ScopedObjectId| #[trigger] new_refetch.skip(old_refetch.len() as int).contains(s) <==> (
        old_hidden.contains_key(s.packed()) && pred(old_hidden[s.packed()]))
}

/// The viewer's derender / blacklist state, and the friends-only filter that
/// shares its suppression machinery.
#[derive(Debug)]
pub struct DerenderList {
    /// The entries, newest last.
    pub entries: Vec<DerenderEntry>,
    /// The blacklisted ids and what each is blacklisted as, derived from the
    /// entries (kept in step with them: see [`DerenderList::wf`]).
    pub ids: HashMap<Uuid, DerenderKind>,
    /// The region-scoped ids currently suppressed (packed), each mapped to
    /// what hides it.
    pub hidden_scoped: HashMap<u64, HiddenBy>,
    /// Suppressions whose scene entities still need despawning, by source.
    pub pending_ids: Vec<HiddenBy>,
    /// Scoped ids whose scene entities still need despawning.
    pub pending_scoped: Vec<ScopedObjectId>,
    /// Scoped ids just released from suppression, to be re-fetched.
    pub pending_refetch: Vec<ScopedObjectId>,
    /// Bumped on every change to the entries.
    pub revision: u64,
    /// The per-account store path, resolved at login.
    pub path: Option<String>,
    /// Whether the on-disk list has been read.
    pub loaded: bool,
    /// Whether the permanent entries changed since the last flush.
    pub dirty: bool,
    /// Whether the friends-only filter is on.
    pub friends_only: bool,
    /// The agent's own id, which the filter never hides.
    pub own_agent: Option<Uuid>,
    /// The friends the filter spares.
    pub friends: HashSet<Uuid>,
}

impl DerenderList {
    /// The derived id index.
    pub open spec fn index(&self) -> Map<Uuid, DerenderKind> {
        self.ids@
    }

    /// The list revision.
    pub open spec fn spec_revision(&self) -> u64 {
        self.revision
    }

    /// The list's invariant: no two entries share an id, and the index holds
    /// exactly the entries' ids with their kinds.
    pub open spec fn wf(&self) -> bool {
        &&& ids_unique(self.entries@)
        &&& forall|id: Uuid| #[trigger] self.index().contains_key(id) <==> listed(self.entries@, id)
        &&& forall|i: int| 0 <= i < self.entries@.len() ==> self.index()[#[trigger] self.entries@[i].id]
            == self.entries@[i].kind
    }

    /// Whether the friends-only filter hides the avatar `agent`.
    pub open spec fn spec_friends_only_hides(&self, agent: Uuid) -> bool {
        self.friends_only && self.own_agent != Some(agent) && !self.friends@.contains(agent)
    }

    /// An empty list: nothing blacklisted, nothing suppressed, the filter off.
    pub fn new() -> (l: DerenderList)
        ensures
            l.wf(),
            l.entries@.len() == 0,
            l.hidden_scoped@ == Map::<u64, HiddenBy>::empty(),
            l.pending_ids@.len() == 0,
            l.pending_scoped@.len() == 0,
            l.pending_refetch@.len() == 0,
            l.spec_revision() == 0,
            l.path is None,
            !l.loaded,
            !l.dirty,
            !l.friends_only,
            l.own_agent is None,
            l.friends@ == Set::<Uuid>::empty(),
    {
        DerenderList {
            entries: Vec::new(),
            ids: HashMap::new(),
            hidden_scoped: HashMap::new(),
            pending_ids: Vec::new(),
            pending_scoped: Vec::new(),
            pending_refetch: Vec::new(),
            revision: 0,
            path: None,
            loaded: false,
            dirty: false,
            friends_only: false,
            own_agent: None,
            friends: HashSet::new(),
        }
    }

    /// Whether `id` is blacklisted as `kind` — the query each point of use
    /// runs.
    pub fn blacklists(&self, id: Uuid, kind: DerenderKind) -> (b: bool)
        requires
            self.wf(),
        ensures
            b == listed_as(self.entries@, id, kind),
    {
        let r = match self.ids.get(&id) {
            Some(held) => *held == kind,
            None => false,
        };
        proof {
            if listed_as(self.entries@, id, kind) {
                let i = choose|i: int| 0 <= i < self.entries@.len() && #[trigger] self.entries@[i].id == id
                    && self.entries@[i].kind == kind;
                assert(listed(self.entries@, id));
            }
            if r {
                assert(listed(self.entries@, id));
                let i = choose|i: int| 0 <= i < self.entries@.len() && #[trigger] self.entries@[i].id == id;
                assert(self.index()[self.entries@[i].id] == self.entries@[i].kind);
            }
        }
        r
    }

    /// Whether `id` is on the blacklist as an in-world kind.
    pub fn blacklists_in_world(&self, id: Uuid) -> (b: bool)
        requires
            self.wf(),
        ensures
            b == listed_in_world(self.entries@, id),
            b == (listed_as(self.entries@, id, DerenderKind::Object) || listed_as(self.entries@, id, DerenderKind::Resident)),
    {
        let r = match self.ids.get(&id) {
            Some(held) => held.is_in_world(),
            None => false,
        };
        proof {
            law_objects_and_residents_are_in_world(self.entries@, id);
            if listed_in_world(self.entries@, id) {
                let i = choose|i: int| 0 <= i < self.entries@.len() && #[trigger] self.entries@[i].id == id
                    && self.entries@[i].kind.spec_is_in_world();
                assert(listed(self.entries@, id));
            }
            if r {
                assert(listed(self.entries@, id));
                let i = choose|i: int| 0 <= i < self.entries@.len() && #[trigger] self.entries@[i].id == id;
                assert(self.index()[self.entries@[i].id] == self.entries@[i].kind);
            }
        }
        r
    }

    /// Whether the friends-only filter hides the avatar `agent`: the filter is
    /// on, and they are neither the agent itself nor a friend.
    #[verifier::when_used_as_spec(spec_friends_only_hides)]
    pub fn friends_only_hides(&self, agent: Uuid) -> (b: bool)
        ensures
            b == self.spec_friends_only_hides(agent),
    {
        let own = match self.own_agent {
            Some(me) => me == agent,
            None => false,
        };
        self.friends_only && !own && !self.friends.contains(&agent)
    }

    /// Whether `id` names an in-world thing this viewer must not draw — a
    /// blacklisted object or avatar, or an avatar the friends-only filter
    /// hides.
    pub fn hides_in_world(&self, id: Uuid) -> (b: bool)
        requires
            self.wf(),
        ensures
            b == (listed_in_world(self.entries@, id) || self.spec_friends_only_hides(id)),
            listed_as(self.entries@, id, DerenderKind::Object) ==> b,
            listed_as(self.entries@, id, DerenderKind::Resident) ==> b,
    {
        self.blacklists_in_world(id) || self.friends_only_hides(id)
    }

    /// Every blacklisted id of `kind`.
    pub fn ids_of_kind(&self, kind: DerenderKind) -> (r: HashSet<Uuid>)
        requires
            self.wf(),
        ensures
            forall|id: Uuid| #[trigger] r@.contains(id) <==> listed_as(self.entries@, id, kind),
    {
        let mut r: HashSet<Uuid> = HashSet::new();
        for i in 0..self.entries.len()
            invariant
                self.wf(),
                forall|id: Uuid| #[trigger] r@.contains(id) <==> exists|j: int| 0 <= j < i
                    && #[trigger] self.entries@[j].id == id && self.entries@[j].kind == kind,
        {
            if self.entries[i].kind == kind {
                r.insert(self.entries[i].id);
            }
            proof {
                assert forall|id: Uuid| #[trigger] r@.contains(id) <==> exists|j: int| 0 <= j < i + 1
                    && #[trigger] self.entries@[j].id == id && self.entries@[j].kind == kind by {
                    if self.entries@[i as int].id == id && self.entries@[i as int].kind == kind {
                        assert(r@.contains(id));
                    }
                }
            }
        }
        r
    }

    /// Whether the object `scoped` must not be mirrored into the scene: it is
    /// blacklisted itself, or hangs off something that is.
    pub fn is_suppressed(&self, scoped: ScopedObjectId) -> (b: bool)
        ensures
            b == self.hidden_scoped@.contains_key(scoped.packed()),
    {
        self.hidden_scoped.contains_key(&scoped.key())
    }

    /// What suppresses `scoped`, if anything.
    pub fn suppressing_root(&self, scoped: ScopedObjectId) -> (r: Option<HiddenBy>)
        ensures
            r == (if self.hidden_scoped@.contains_key(scoped.packed()) {
                Some(self.hidden_scoped@[scoped.packed()])
            } else {
                None::<HiddenBy>
            }),
    {
        match self.hidden_scoped.get(&scoped.key()) {
            Some(root) => Some(*root),
            None => None,
        }
    }

    /// Whether `b` keeps `a`'s queued despawns, persistence state and filter.
    pub open spec fn keeps_rest(a: &DerenderList, b: &DerenderList) -> bool {
        &&& b.pending_scoped@ == a.pending_scoped@
        &&& b.path == a.path
        &&& b.loaded == a.loaded
        &&& b.friends_only == a.friends_only
        &&& b.own_agent == a.own_agent
        &&& b.friends@ == a.friends@
    }

    /// Record every id in `removed` as suppressed by `root` — what the scene
    /// purge despawned, often the only record of those objects.
    pub fn note_hidden(&mut self, removed: &[ScopedObjectId], root: HiddenBy)
        ensures
            forall|k: u64| #[trigger] final(self).hidden_scoped@.contains_key(k) <==> (old(self).hidden_scoped@.contains_key(k)
                || exists|i: int| 0 <= i < removed@.len() && #[trigger] removed@[i].packed() == k),
            forall|k: u64| #[trigger] final(self).hidden_scoped@.contains_key(k) ==> final(self).hidden_scoped@[k] == (
                if exists|i: int| 0 <= i < removed@.len() && #[trigger] removed@[i].packed() == k {
                    root
                } else {
                    old(self).hidden_scoped@[k]
                }),
            final(self).entries@ == old(self).entries@,
            final(self).ids@ == old(self).ids@,
            final(self).revision == old(self).revision,
            final(self).pending_ids@ == old(self).pending_ids@,
            final(self).pending_refetch@ == old(self).pending_refetch@,
            final(self).dirty == old(self).dirty,
            DerenderList::keeps_rest(old(self), final(self)),
    {
        for i in 0..removed.len()
            invariant
                self.entries@ == old(self).entries@,
                self.ids@ == old(self).ids@,
                self.revision == old(self).revision,
                self.pending_ids@ == old(self).pending_ids@,
                self.pending_refetch@ == old(self).pending_refetch@,
                self.dirty == old(self).dirty,
                DerenderList::keeps_rest(old(self), self),
                forall|k: u64| #[trigger] self.hidden_scoped@.contains_key(k) <==> (old(self).hidden_scoped@.contains_key(k)
                    || exists|j: int| 0 <= j < i && #[trigger] removed@[j].packed() == k),
                forall|k: u64| #[trigger] self.hidden_scoped@.contains_key(k) ==> self.hidden_scoped@[k] == (
                    if exists|j: int| 0 <= j < i && #[trigger] removed@[j].packed() == k {
                        root
                    } else {
                        old(self).hidden_scoped@[k]
                    }),
        {
            let key = removed[i].key();
            let _prior = self.hidden_scoped.insert(key, root);
            proof {
                assert(removed@[i as int].packed() == key);
                assert forall|k: u64| #[trigger] self.hidden_scoped@.contains_key(k) implies self.hidden_scoped@[k] == (
                    if exists|j: int| 0 <= j < i + 1 && #[trigger] removed@[j].packed() == k {
                        root
                    } else {
                        old(self).hidden_scoped@[k]
                    }) by {
                    if k != key && exists|j: int| 0 <= j < i + 1 && #[trigger] removed@[j].packed() == k {
                        let j = choose|j: int| 0 <= j < i + 1 && #[trigger] removed@[j].packed() == k;
                        assert(j != i);
                    }
                }
                assert forall|k: u64| #[trigger] self.hidden_scoped@.contains_key(k) <==> (old(self).hidden_scoped@.contains_key(k)
                    || exists|j: int| 0 <= j < i + 1 && #[trigger] removed@[j].packed() == k) by {
                    if k != key && exists|j: int| 0 <= j < i + 1 && #[trigger] removed@[j].packed() == k {
                        let j = choose|j: int| 0 <= j < i + 1 && #[trigger] removed@[j].packed() == k;
                        assert(j != i);
                    }
                }
            }
        }
    }

    /// Rebuild the derived id index from the entries and bump the revision.
    fn reindex(&mut self)
        requires
            ids_unique(old(self).entries@),
        ensures
            final(self).wf(),
            final(self).entries@ == old(self).entries@,
            final(self).revision == next_revision(old(self).revision),
            final(self).hidden_scoped@ == old(self).hidden_scoped@,
            final(self).pending_ids@ == old(self).pending_ids@,
            final(self).pending_refetch@ == old(self).pending_refetch@,
            final(self).dirty == old(self).dirty,
            DerenderList::keeps_rest(old(self), final(self)),
    {
        let mut ids: HashMap<Uuid, DerenderKind> = HashMap::new();
        for i in 0..self.entries.len()
            invariant
                ids_unique(self.entries@),
                forall|id: Uuid| #[trigger] ids@.contains_key(id) <==> exists|j: int| 0 <= j < i
                    && #[trigger] self.entries@[j].id == id,
                forall|j: int| 0 <= j < i ==> ids@[#[trigger] self.entries@[j].id] == self.entries@[j].kind,
        {
            ids.insert(self.entries[i].id, self.entries[i].kind);
            proof {
                assert forall|id: Uuid| #[trigger] ids@.contains_key(id) <==> exists|j: int| 0 <= j < i + 1
                    && #[trigger] self.entries@[j].id == id by {
                    if id == self.entries@[i as int].id {
                        assert(self.entries@[i as int].id == id);
                    }
                }
                assert forall|j: int| 0 <= j < i + 1 implies ids@[#[trigger] self.entries@[j].id] == self.entries@[j].kind by {
                    if j < i {
                        assert(self.entries@[j].id != self.entries@[i as int].id);
                    }
                }
            }
        }
        self.ids = ids;
        self.revision = bump(self.revision);
    }

    /// The packed ids currently suppressed whose root `keep` accepts, each
    /// once; `pred` is what `keep` decides.
    fn hidden_where<F: Fn(HiddenBy) -> bool>(&self, keep: F, Ghost(pred): Ghost<spec_fn(HiddenBy) -> bool>) -> (r: Vec<u64>)
        requires
            forall|h: HiddenBy| #[trigger] keep.requires((h,)),
            forall|h: HiddenBy, b: bool| #[trigger] keep.ensures((h,), b) ==> b == pred(h),
        ensures
            r@.no_duplicates(),
            forall|k: u64| #[trigger] r@.contains(k) <==> (self.hidden_scoped@.contains_key(k) && pred(self.hidden_scoped@[k])),
    {
        let keys = map_keys(&self.hidden_scoped);
        let mut r: Vec<u64> = Vec::new();
        for i in 0..keys.len()
            invariant
                keys@.no_duplicates(),
                forall|k: u64| keys@.contains(k) <==> self.hidden_scoped@.contains_key(k),
                forall|h: HiddenBy| #[trigger] keep.requires((h,)),
                forall|h: HiddenBy, b: bool| #[trigger] keep.ensures((h,), b) ==> b == pred(h),
                r@.no_duplicates(),
                forall|k: u64| #[trigger] r@.contains(k) ==> (self.hidden_scoped@.contains_key(k) && pred(self.hidden_scoped@[k])
                    && exists|j: int| 0 <= j < i && keys@[j] == k),
                forall|j: int| 0 <= j < i && pred(self.hidden_scoped@[#[trigger] keys@[j]]) ==> r@.contains(keys@[j]),
        {
            let k = keys[i];
            assert(keys@.contains(k));
            let root = *self.hidden_scoped.get(&k).unwrap();
            if keep(root) {
                proof {
                    assert forall|x: u64| r@.contains(x) implies x != k by {
                        let j = choose|j: int| 0 <= j < i && keys@[j] == x;
                        assert(keys@[j] != keys@[i as int]);
                    }
                }
                let ghost before = r@;
                r.push(k);
                proof {
                    assert forall|a: int, b: int| 0 <= a < r.len() && 0 <= b < r.len() && a != b
                        implies r@[a] != r@[b] by {
                        if a < before.len() && b < before.len() {
                        } else if a < before.len() {
                            assert(before.contains(r@[a]));
                        } else {
                            assert(before.contains(r@[b]));
                        }
                    }
                    assert forall|x: u64| #[trigger] r@.contains(x) implies (self.hidden_scoped@.contains_key(x)
                        && pred(self.hidden_scoped@[x]) && exists|j: int| 0 <= j < i + 1 && keys@[j] == x) by {
                        if x == k {
                            assert(keys@[i as int] == x);
                        } else {
                            let y = choose|y: int| 0 <= y < r.len() && r@[y] == x;
                            assert(before.contains(x));
                        }
                    }
                    assert forall|j: int| 0 <= j < i + 1 && pred(self.hidden_scoped@[#[trigger] keys@[j]])
                        implies r@.contains(keys@[j]) by {
                        if j < i {
                            let y = choose|y: int| 0 <= y < before.len() && before[y] == keys@[j];
                            assert(r@[y] == before[y]);
                        } else {
                            assert(r@[before.len() as int] == k);
                        }
                    }
                }
            }
        }
        proof {
            assert forall|k: u64| self.hidden_scoped@.contains_key(k) && pred(self.hidden_scoped@[k])
                implies #[trigger] r@.contains(k) by {
                assert(keys@.contains(k));
                let j = choose|j: int| 0 <= j < keys.len() && keys@[j] == k;
            }
        }
        r
    }

    /// Drop the suppressions under the packed ids `freed` (each once, each
    /// suppressed) and queue those objects for a re-fetch, in order.
    fn forget_hidden(&mut self, freed: Vec<u64>, Ghost(pred): Ghost<spec_fn(HiddenBy) -> bool>)
        requires
            freed@.no_duplicates(),
            forall|k: u64| #[trigger] freed@.contains(k) <==> (old(self).hidden_scoped@.contains_key(k)
                && pred(old(self).hidden_scoped@[k])),
        ensures
            releases(
                old(self).hidden_scoped@,
                final(self).hidden_scoped@,
                old(self).pending_refetch@,
                final(self).pending_refetch@,
                pred,
            ),
            forall|k: u64| #[trigger] final(self).hidden_scoped@.contains_key(k) <==> (old(self).hidden_scoped@.contains_key(k)
                && !freed@.contains(k)),
            forall|k: u64| #[trigger] final(self).hidden_scoped@.contains_key(k) ==> final(self).hidden_scoped@[k]
                == old(self).hidden_scoped@[k],
            final(self).pending_refetch@ == old(self).pending_refetch@ + freed@.map_values(
                |k: u64| ScopedObjectId::unpacked(k),
            ),
            final(self).entries@ == old(self).entries@,
            final(self).ids@ == old(self).ids@,
            final(self).revision == old(self).revision,
            final(self).pending_ids@ == old(self).pending_ids@,
            final(self).dirty == old(self).dirty,
            DerenderList::keeps_rest(old(self), final(self)),
    {
        for i in 0..freed.len()
            invariant
                freed@.no_duplicates(),
                self.entries@ == old(self).entries@,
                self.ids@ == old(self).ids@,
                self.revision == old(self).revision,
                self.pending_ids@ == old(self).pending_ids@,
                self.dirty == old(self).dirty,
                DerenderList::keeps_rest(old(self), self),
                forall|k: u64| #[trigger] self.hidden_scoped@.contains_key(k) <==> (old(self).hidden_scoped@.contains_key(k)
                    && !freed@.take(i as int).contains(k)),
                forall|k: u64| #[trigger] self.hidden_scoped@.contains_key(k) ==> self.hidden_scoped@[k]
                    == old(self).hidden_scoped@[k],
                self.pending_refetch@ == old(self).pending_refetch@ + freed@.take(i as int).map_values(
                    |k: u64| ScopedObjectId::unpacked(k),
                ),
        {
            let k = freed[i];
            let _dropped = self.hidden_scoped.remove(&k);
            self.pending_refetch.push(ScopedObjectId::from_key(k));
            proof {
                let t = freed@.take(i + 1);
                assert(t =~= freed@.take(i as int).push(k));
                assert(t.map_values(|k: u64| ScopedObjectId::unpacked(k)) =~= freed@.take(i as int).map_values(
                    |k: u64| ScopedObjectId::unpacked(k),
                ).push(ScopedObjectId::unpacked(k)));
                assert forall|x: u64| #[trigger] t.contains(x) <==> (freed@.take(i as int).contains(x) || x == k) by {
                    if t.contains(x) && x != k {
                        let y = choose|y: int| 0 <= y < t.len() && t[y] == x;
                        assert(freed@.take(i as int)[y] == x);
                    }
                    if freed@.take(i as int).contains(x) {
                        let y = choose|y: int| 0 <= y < i && freed@.take(i as int)[y] == x;
                        assert(t[y] == x);
                    }
                    if x == k {
                        assert(t[i as int] == x);
                    }
                }
            }
        }
        proof {
            assert(freed@.take(freed.len() as int) =~= freed@);
            let old_len = old(self).pending_refetch@.len();
            let added = freed@.map_values(|k: u64| ScopedObjectId::unpacked(k));
            assert(self.pending_refetch@.take(old_len as int) =~= old(self).pending_refetch@);
            assert(self.pending_refetch@.skip(old_len as int) =~= added);
            assert forall|a: int, b: int| 0 <= a < added.len() && 0 <= b < added.len() && a != b
                implies added[a] != added[b] by {
                lemma_unpack_pack(freed@[a]);
                lemma_unpack_pack(freed@[b]);
            }
            assert forall|s: ScopedObjectId| #[trigger] added.contains(s) <==> (old(self).hidden_scoped@.contains_key(
                s.packed(),
            ) && pred(old(self).hidden_scoped@[s.packed()])) by {
                if added.contains(s) {
                    let j = choose|j: int| 0 <= j < added.len() && added[j] == s;
                    lemma_unpack_pack(freed@[j]);
                    assert(freed@.contains(freed@[j]));
                }
                if old(self).hidden_scoped@.contains_key(s.packed()) && pred(old(self).hidden_scoped@[s.packed()]) {
                    assert(freed@.contains(s.packed()));
                    let j = choose|j: int| 0 <= j < freed.len() && freed@[j] == s.packed();
                    lemma_pack_unpack(s);
                    assert(added[j] == s);
                }
            }
        }
    }
    /// Keep only the entries `keep` accepts, in order; `pred` is what `keep`
    /// decides.
    fn retain_entries<F: Fn(&DerenderEntry) -> bool>(&mut self, keep: F, Ghost(pred): Ghost<spec_fn(DerenderEntry) -> bool>)
        requires
            forall|e: DerenderEntry| #[trigger] keep.requires((&e,)),
            forall|e: DerenderEntry, b: bool| #[trigger] keep.ensures((&e,), b) ==> b == pred(e),
        ensures
            final(self).entries@ == old(self).entries@.filter(pred),
            ids_unique(old(self).entries@) ==> ids_unique(final(self).entries@),
            forall|x: Uuid| #[trigger] listed(final(self).entries@, x) <==> exists|j: int| 0 <= j < old(self).entries@.len()
                && #[trigger] old(self).entries@[j].id == x && pred(old(self).entries@[j]),
            final(self).entries@.len() == old(self).entries@.len() <==> forall|j: int| 0 <= j < old(self).entries@.len()
                ==> pred(#[trigger] old(self).entries@[j]),
            final(self).ids@ == old(self).ids@,
            final(self).revision == old(self).revision,
            final(self).hidden_scoped@ == old(self).hidden_scoped@,
            final(self).pending_ids@ == old(self).pending_ids@,
            final(self).pending_refetch@ == old(self).pending_refetch@,
            final(self).dirty == old(self).dirty,
            DerenderList::keeps_rest(old(self), final(self)),
    {
        let mut rest: Vec<DerenderEntry> = Vec::new();
        std::mem::swap(&mut rest, &mut self.entries);
        let ghost orig = rest@;
        let ghost mut n: int = 0;
        while rest.len() > 0
            invariant
                orig == old(self).entries@,
                0 <= n <= orig.len(),
                rest@ == orig.skip(n),
                self.entries@ == orig.take(n).filter(pred),
                ids_unique(orig) ==> ids_unique(self.entries@),
                forall|a: int| 0 <= a < self.entries@.len() ==> drawn_from(orig, n, #[trigger] self.entries@[a]),
                forall|x: Uuid| #[trigger] listed(self.entries@, x) <==> exists|j: int| 0 <= j < n
                    && #[trigger] orig[j].id == x && pred(orig[j]),
                self.entries@.len() <= n,
                self.entries@.len() == n <==> forall|j: int| 0 <= j < n ==> pred(#[trigger] orig[j]),
                forall|e: DerenderEntry| #[trigger] keep.requires((&e,)),
                forall|e: DerenderEntry, b: bool| #[trigger] keep.ensures((&e,), b) ==> b == pred(e),
                self.ids@ == old(self).ids@,
                self.revision == old(self).revision,
                self.hidden_scoped@ == old(self).hidden_scoped@,
                self.pending_ids@ == old(self).pending_ids@,
                self.pending_refetch@ == old(self).pending_refetch@,
                self.dirty == old(self).dirty,
                DerenderList::keeps_rest(old(self), self),
            decreases rest.len(),
        {
            let ghost before = self.entries@;
            let e = rest.remove(0);
            proof {
                assert(e == orig[n]);
                assert(orig.take(n + 1) =~= orig.take(n).push(e));
                orig.take(n).lemma_filter_push(e, pred);
                assert(rest@ =~= orig.skip(n + 1));
            }
            let kept = keep(&e);
            if kept {
                proof {
                    if ids_unique(orig) {
                        assert forall|a: int| 0 <= a < before.len() implies #[trigger] before[a].id != e.id by {
                            assert(drawn_from(orig, n, before[a]));
                            let j = choose|j: int| 0 <= j < n && #[trigger] orig[j] == before[a];
                            assert(orig[j].id != orig[n].id);
                        }
                    }
                }
                self.entries.push(e);
            }
            proof {
                if ids_unique(orig) {
                    assert forall|a: int, b: int| 0 <= a < b < self.entries@.len() implies #[trigger] self.entries@[a].id
                        != #[trigger] self.entries@[b].id by {
                        if b == before.len() {
                            assert(before[a].id != e.id);
                        } else {
                            assert(before[a].id != before[b].id);
                        }
                    }
                }
                assert forall|a: int| 0 <= a < self.entries@.len() implies drawn_from(orig, n + 1, #[trigger] self.entries@[a]) by {
                    if a < before.len() {
                        assert(drawn_from(orig, n, before[a]));
                        let j = choose|j: int| 0 <= j < n && #[trigger] orig[j] == before[a];
                        assert(orig[j] == self.entries@[a]);
                    } else {
                        assert(orig[n] == self.entries@[a]);
                    }
                }
                assert forall|x: Uuid| #[trigger] listed(self.entries@, x) <==> exists|j: int| 0 <= j < n + 1
                    && #[trigger] orig[j].id == x && pred(orig[j]) by {
                    if listed(self.entries@, x) {
                        let a = choose|a: int| 0 <= a < self.entries@.len() && #[trigger] self.entries@[a].id == x;
                        if a < before.len() {
                            assert(before[a].id == x);
                            assert(listed(before, x));
                        } else {
                            assert(orig[n].id == x);
                        }
                    }
                    if exists|j: int| 0 <= j < n + 1 && #[trigger] orig[j].id == x && pred(orig[j]) {
                        let j = choose|j: int| 0 <= j < n + 1 && #[trigger] orig[j].id == x && pred(orig[j]);
                        if j < n {
                            assert(listed(before, x));
                            let a = choose|a: int| 0 <= a < before.len() && #[trigger] before[a].id == x;
                            assert(self.entries@[a].id == x);
                        } else {
                            assert(self.entries@[before.len() as int].id == x);
                        }
                    }
                }
                n = n + 1;
            }
        }
        proof {
            assert(orig.take(orig.len() as int) =~= orig);
        }
    }

    /// Add (or re-derender) an entry. A new id is appended, queued for a scene
    /// purge, reindexed and bumps the revision. An id already listed is
    /// upgraded in place and nothing else: a temporary entry re-derendered as
    /// permanent becomes permanent (marking the list dirty and bumping the
    /// revision), never the other way round, and an empty name is filled in.
    pub fn add(&mut self, entry: DerenderEntry)
        requires
            old(self).wf(),
        ensures
            final(self).wf(),
            final(self).hidden_scoped@ == old(self).hidden_scoped@,
            final(self).pending_refetch@ == old(self).pending_refetch@,
            DerenderList::keeps_rest(old(self), final(self)),
            listed(old(self).entries@, entry.id) ==> {
                let i = choose|i: int| 0 <= i < old(self).entries@.len() && #[trigger] old(self).entries@[i].id
                    == entry.id;
                let held = old(self).entries@[i];
                let upgraded = entry.permanent && !held.permanent;
                &&& final(self).entries@ == old(self).entries@.update(
                    i,
                    DerenderEntry {
                        permanent: held.permanent || entry.permanent,
                        name: if held.name@.len() == 0 {
                            entry.name
                        } else {
                            held.name
                        },
                        ..held
                    },
                )
                &&& final(self).pending_ids@ == old(self).pending_ids@
                &&& final(self).dirty == (old(self).dirty || upgraded)
                &&& final(self).revision == if upgraded {
                    next_revision(old(self).revision)
                } else {
                    old(self).revision
                }
            },
            !listed(old(self).entries@, entry.id) ==> {
                &&& final(self).entries@ == old(self).entries@.push(entry)
                &&& final(self).pending_ids@ == old(self).pending_ids@.push(HiddenBy::Blacklist(entry.id))
                &&& final(self).dirty == (old(self).dirty || entry.permanent)
                &&& final(self).revision == next_revision(old(self).revision)
            },
    {
        let mut i: usize = 0;
        while i < self.entries.len()
            invariant
                self.entries@ == old(self).entries@,
                i <= self.entries.len(),
                forall|j: int| 0 <= j < i ==> #[trigger] self.entries@[j].id != entry.id,
            ensures
                self.entries@ == old(self).entries@,
                i <= self.entries.len(),
                forall|j: int| 0 <= j < i ==> #[trigger] self.entries@[j].id != entry.id,
                i < self.entries.len() ==> self.entries@[i as int].id == entry.id,
            decreases self.entries.len() - i,
        {
            if self.entries[i].id == entry.id {
                break;
            }
            i = i + 1;
        }
        if i < self.entries.len() {
            let ghost at = i as int;
            proof {
                assert(old(self).entries@[at].id == entry.id);
                let c = choose|c: int| 0 <= c < old(self).entries@.len() && #[trigger] old(self).entries@[c].id
                    == entry.id;
                assert(c == at) by {
                    if c != at {
                        if c < at {
                            assert(old(self).entries@[c].id != old(self).entries@[at].id);
                        } else {
                            assert(old(self).entries@[at].id != old(self).entries@[c].id);
                        }
                    }
                }
            }
            let mut held = self.entries.remove(i);
            let upgraded = entry.permanent && !held.permanent;
            held.permanent = held.permanent || entry.permanent;
            if held.name.as_str().is_empty() {
                held.name = entry.name;
            }
            self.entries.insert(i, held);
            if upgraded {
                self.dirty = true;
                self.revision = bump(self.revision);
            }
            proof {
                assert(self.entries@ =~= old(self).entries@.update(at, self.entries@[at]));
                assert forall|a: int, b: int| 0 <= a < b < self.entries@.len() implies #[trigger] self.entries@[a].id
                    != #[trigger] self.entries@[b].id by {
                    assert(old(self).entries@[a].id != old(self).entries@[b].id);
                }
                assert forall|x: Uuid| #[trigger] self.index().contains_key(x) <==> listed(self.entries@, x) by {
                    if listed(old(self).entries@, x) {
                        let a = choose|a: int| 0 <= a < old(self).entries@.len() && #[trigger] old(self).entries@[a].id == x;
                        assert(self.entries@[a].id == x);
                    }
                    if listed(self.entries@, x) {
                        let a = choose|a: int| 0 <= a < self.entries@.len() && #[trigger] self.entries@[a].id == x;
                        assert(old(self).entries@[a].id == x);
                    }
                }
                assert forall|a: int| 0 <= a < self.entries@.len() implies self.index()[#[trigger] self.entries@[a].id]
                    == self.entries@[a].kind by {
                    assert(old(self).entries@[a].id == self.entries@[a].id);
                }
            }
        } else {
            let permanent = entry.permanent;
            let id = entry.id;
            self.dirty = self.dirty || permanent;
            self.pending_ids.push(HiddenBy::Blacklist(id));
            self.entries.push(entry);
            proof {
                assert forall|a: int, b: int| 0 <= a < b < self.entries@.len() implies #[trigger] self.entries@[a].id
                    != #[trigger] self.entries@[b].id by {
                    if b == old(self).entries@.len() {
                        assert(old(self).entries@[a].id != id);
                    } else {
                        assert(old(self).entries@[a].id != old(self).entries@[b].id);
                    }
                }
            }
            self.reindex();
        }
    }

    /// Drop the entry for `id`, if listed: the list is marked dirty,
    /// reindexed, and exactly what that entry suppressed — its object and
    /// everything that inherited the suppression — is released and queued for
    /// a re-fetch; another entry's subtree, and anything the friends-only filter
    /// hides, stays hidden. An unlisted id changes nothing.
    pub fn remove(&mut self, id: Uuid)
        requires
            old(self).wf(),
        ensures
            final(self).wf(),
            DerenderList::keeps_rest(old(self), final(self)),
            final(self).pending_ids@ == old(self).pending_ids@,
            !listed(old(self).entries@, id) ==> {
                &&& final(self).entries@ == old(self).entries@
                &&& final(self).revision == old(self).revision
                &&& final(self).dirty == old(self).dirty
                &&& final(self).hidden_scoped@ == old(self).hidden_scoped@
                &&& final(self).pending_refetch@ == old(self).pending_refetch@
            },
            listed(old(self).entries@, id) ==> {
                &&& final(self).entries@ == old(self).entries@.filter(|e: DerenderEntry| e.id != id)
                &&& final(self).revision == next_revision(old(self).revision)
                &&& final(self).dirty
                &&& releases(
                    old(self).hidden_scoped@,
                    final(self).hidden_scoped@,
                    old(self).pending_refetch@,
                    final(self).pending_refetch@,
                    |root: HiddenBy| root == HiddenBy::Blacklist(id),
                )
            },
    {
        let before = self.entries.len();
        let other = |e: &DerenderEntry| -> (b: bool)
            ensures
                b == (e.id != id),
        {
            e.id != id
        };
        self.retain_entries(other, Ghost(|e: DerenderEntry| e.id != id));
        if self.entries.len() == before {
            proof {
                if listed(old(self).entries@, id) {
                    let i = choose|i: int| 0 <= i < old(self).entries@.len() && #[trigger] old(self).entries@[i].id == id;
                    assert(!((|e: DerenderEntry| e.id != id)(old(self).entries@[i])));
                }
                assert(self.entries@ =~= old(self).entries@.filter(|e: DerenderEntry| e.id != id));
                assert(self.entries@ =~= old(self).entries@) by {
                    lemma_filter_keeping_all(old(self).entries@, |e: DerenderEntry| e.id != id);
                }
            }
            return;
        }
        self.dirty = true;
        self.reindex();
        let is_entry = |root: HiddenBy| -> (b: bool)
            ensures
                b == (root == HiddenBy::Blacklist(id)),
        {
            root == HiddenBy::Blacklist(id)
        };
        let freed = self.hidden_where(is_entry, Ghost(|root: HiddenBy| root == HiddenBy::Blacklist(id)));
        self.forget_hidden(freed, Ghost(|root: HiddenBy| root == HiddenBy::Blacklist(id)));
    }
    /// Drop every temporary entry (a teleport, or the floater's Clear
    /// temporary). When any left, the list is reindexed and every suppression
    /// whose blacklist entry left is released and queued for a re-fetch; the
    /// permanent entries and the friends-only filter keep theirs. The dirty
    /// mark is untouched: the stored list holds only permanent entries.
    pub fn clear_temporary(&mut self)
        requires
            old(self).wf(),
        ensures
            final(self).wf(),
            DerenderList::keeps_rest(old(self), final(self)),
            final(self).pending_ids@ == old(self).pending_ids@,
            final(self).dirty == old(self).dirty,
            final(self).entries@ == old(self).entries@.filter(|e: DerenderEntry| e.permanent),
            (forall|j: int| 0 <= j < old(self).entries@.len() ==> (#[trigger] old(self).entries@[j]).permanent) ==> {
                &&& final(self).revision == old(self).revision
                &&& final(self).hidden_scoped@ == old(self).hidden_scoped@
                &&& final(self).pending_refetch@ == old(self).pending_refetch@
            },
            (exists|j: int| 0 <= j < old(self).entries@.len() && !(#[trigger] old(self).entries@[j]).permanent) ==> {
                &&& final(self).revision == next_revision(old(self).revision)
                &&& releases(
                    old(self).hidden_scoped@,
                    final(self).hidden_scoped@,
                    old(self).pending_refetch@,
                    final(self).pending_refetch@,
                    |root: HiddenBy| match root {
                        HiddenBy::Blacklist(x) => !listed(final(self).entries@, x),
                        HiddenBy::FriendsOnly(_) => false,
                    },
                )
            },
    {
        let before = self.entries.len();
        let is_permanent = |e: &DerenderEntry| -> (b: bool)
            ensures
                b == e.permanent,
        {
            e.permanent
        };
        self.retain_entries(is_permanent, Ghost(|e: DerenderEntry| e.permanent));
        if self.entries.len() == before {
            proof {
                lemma_filter_keeping_all(old(self).entries@, |e: DerenderEntry| e.permanent);
            }
            return;
        }
        self.reindex();
        let ghost kept = self.entries@;
        let ids = &self.ids;
        let gone = |root: HiddenBy| -> (b: bool)
            ensures
                b == match root {
                    HiddenBy::Blacklist(x) => !ids@.contains_key(x),
                    HiddenBy::FriendsOnly(_) => false,
                },
        {
            match root {
                HiddenBy::Blacklist(x) => !ids.contains_key(&x),
                HiddenBy::FriendsOnly(_) => false,
            }
        };
        let ghost pred = |root: HiddenBy| match root {
            HiddenBy::Blacklist(x) => !listed(kept, x),
            HiddenBy::FriendsOnly(_) => false,
        };
        let freed = self.hidden_where(gone, Ghost(pred));
        self.forget_hidden(freed, Ghost(pred));
    }

    /// Re-apply the friends-only filter after its inputs moved: free everyone
    /// it no longer hides — queuing their re-fetch — and queue a purge for
    /// every agent of `known` it now does, in order.
    pub fn resync_friends_only(&mut self, known: &[Uuid])
        requires
            old(self).wf(),
        ensures
            final(self).wf(),
            DerenderList::keeps_rest(old(self), final(self)),
            final(self).entries@ == old(self).entries@,
            final(self).revision == old(self).revision,
            final(self).dirty == old(self).dirty,
            releases(
                old(self).hidden_scoped@,
                final(self).hidden_scoped@,
                old(self).pending_refetch@,
                final(self).pending_refetch@,
                |root: HiddenBy| match root {
                    HiddenBy::FriendsOnly(agent) => !old(self).spec_friends_only_hides(agent),
                    HiddenBy::Blacklist(_) => false,
                },
            ),
            final(self).pending_ids@ == old(self).pending_ids@ + friends_only_purges(*old(self), known@),
    {
        let ghost pred = |root: HiddenBy| match root {
            HiddenBy::FriendsOnly(agent) => !self.spec_friends_only_hides(agent),
            HiddenBy::Blacklist(_) => false,
        };
        let this = &*self;
        let spared = |root: HiddenBy| -> (b: bool)
            ensures
                b == match root {
                    HiddenBy::FriendsOnly(agent) => !this.spec_friends_only_hides(agent),
                    HiddenBy::Blacklist(_) => false,
                },
        {
            match root {
                HiddenBy::FriendsOnly(agent) => !this.friends_only_hides(agent),
                HiddenBy::Blacklist(_) => false,
            }
        };
        let freed = self.hidden_where(spared, Ghost(pred));
        self.forget_hidden(freed, Ghost(pred));
        let ghost mid = self.pending_ids@;
        let ghost hidden_after = self.hidden_scoped@;
        let ghost refetch_after = self.pending_refetch@;
        for i in 0..known.len()
            invariant
                self.wf(),
                DerenderList::keeps_rest(old(self), self),
                self.pending_ids@ == mid + friends_only_purges(*old(self), known@.take(i as int)),
                self.entries@ == old(self).entries@,
                self.revision == old(self).revision,
                self.dirty == old(self).dirty,
                self.hidden_scoped@ == hidden_after,
                self.pending_refetch@ == refetch_after,
        {
            let agent = known[i];
            let hides = self.friends_only_hides(agent);
            if hides {
                self.pending_ids.push(HiddenBy::FriendsOnly(agent));
            }
            proof {
                let t = known@.take(i + 1);
                assert(t.drop_last() =~= known@.take(i as int));
                assert(self.pending_ids@ =~= mid + friends_only_purges(*old(self), t));
            }
        }
        proof {
            assert(known@.take(known.len() as int) =~= known@);
        }
    }
    /// The whole list, in insertion order.
    pub fn entries(&self) -> (e: &[DerenderEntry])
        ensures
            e@ == self.entries@,
    {
        self.entries.as_slice()
    }

    /// The list revision — a view rebuilds when it advances.
    pub fn revision(&self) -> (r: u64)
        ensures
            r == self.spec_revision(),
    {
        self.revision
    }
}

/// A filter that keeps every element gives the sequence back.
proof fn lemma_filter_keeping_all<A>(s: Seq<A>, pred: spec_fn(A) -> bool)
    requires
        forall|j: int| 0 <= j < s.len() ==> pred(#[trigger] s[j]),
    ensures
        s.filter(pred) == s,
    decreases s.len(),
{
    reveal(Seq::filter);
    if s.len() > 0 {
        lemma_filter_keeping_all(s.drop_last(), pred);
        assert(s.drop_last().push(s.last()) =~= s);
    }
}

/// Whether `e` is one of the first `n` elements of `s`.
pub open spec fn drawn_from<A>(s: Seq<A>, n: int, e: A) -> bool {
    exists|j: int| 0 <= j < n && #[trigger] s[j] == e
}

/// The purges the friends-only filter of `list` queues for the agents of
/// `known`, in order: one for each agent it hides.
pub open spec fn friends_only_purges(list: DerenderList, known: Seq<Uuid>) -> Seq<HiddenBy>
    decreases known.len(),
{
    if known.len() == 0 {
        Seq::empty()
    } else {
        let rest = friends_only_purges(list, known.drop_last());
        if list.spec_friends_only_hides(known.last()) {
            rest.push(HiddenBy::FriendsOnly(known.last()))
        } else {
            rest
        }
    }
}

impl Default for DerenderList {
    /// An empty list.
    fn default() -> (l: DerenderList)
        ensures
            l.wf(),
            l.entries@.len() == 0,
            l.hidden_scoped@ == Map::<u64, HiddenBy>::empty(),
            l.spec_revision() == 0,
            !l.friends_only,
    {
        DerenderList::new()
    }
}

/// Dropping an entry that was just added for a fresh id gives the entries
/// back as they were.
pub proof fn law_remove_undoes_add(entries: Seq<DerenderEntry>, entry: DerenderEntry)
    requires
        !listed(entries, entry.id),
    ensures
        entries.push(entry).filter(|e: DerenderEntry| e.id != entry.id) == entries,
{
    let pred = |e: DerenderEntry| e.id != entry.id;
    entries.lemma_filter_push(entry, pred);
    assert forall|j: int| 0 <= j < entries.len() implies pred(#[trigger] entries[j]) by {
        if entries[j].id == entry.id {
            assert(listed(entries, entry.id));
        }
    }
    lemma_filter_keeping_all(entries, pred);
}

} // verus!

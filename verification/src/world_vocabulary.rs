//! Small world vocabulary the world's layers share — the HUD render layer, an
//! avatar's pick identity, a media face — and the avatar bookkeeping: which
//! avatars are in view and through which entities, what each is called, which
//! objects hang off which avatar, and what a purge keeps.

use crate::ids::{AgentKey, Entity, ObjectKey, RegionHandle, ScopedObjectId, TextureKey, Uuid};
use crate::ids::{lemma_pack_unpack, lemma_unpack_pack};
use crate::collections::{map_keys, set_elements};
use crate::text::{
    eq_ignore_ascii_case, hex_digit, hex_digit_of, push_char, push_str, str_eq_ignore_ascii_case,
    strip_controls, without_controls,
};
use crate::world_state::{bump, next_revision};
use std::collections::HashMap;
use std::collections::HashSet;
use vstd::prelude::*;

verus! {

broadcast use vstd::std_specs::hash::group_hash_axioms;

/// The render layer the whole HUD subtree lives on; the world camera, on the
/// default layer, never renders it.
pub const HUD_RENDER_LAYER: usize = 1;

/// How many leading hex characters of an agent id a provisional tag shows
/// before the real name resolves.
pub const PROVISIONAL_ID_CHARS: usize = 8;

/// How far up an attachment / linkset chain a walk goes when attributing an
/// object to its avatar — a guard against a malformed parent cycle.
pub const MAX_ATTACHMENT_DEPTH: usize = 32;

/// The avatar a pickable piece (a body part, a worn mesh, the name tag)
/// belongs to.
#[derive(Debug, Clone, Copy, PartialEq, Eq, Structural)]
pub struct AvatarPickTarget {
    /// The avatar this entity is part of.
    pub agent: AgentKey,
}

impl AvatarPickTarget {
    /// Tag a pickable piece of `agent`.
    pub fn new(agent: AgentKey) -> (t: AvatarPickTarget)
        ensures
            t.agent == agent,
    {
        AvatarPickTarget { agent }
    }

    /// The avatar this entity belongs to.
    pub fn agent(&self) -> (a: AgentKey)
        ensures
            a == self.agent,
    {
        self.agent
    }
}

/// One media face: the object carrying it and the face index.
#[derive(Debug, Clone, Copy, PartialEq, Eq, Structural, Hash)]
pub struct MediaTarget {
    /// The object carrying the face.
    pub object: ObjectKey,
    /// The face index.
    pub face: u8,
}

/// The user's own naming of a resident, overriding what the grid answers.
#[derive(Debug)]
pub enum NameAlias {
    /// Show this text in place of the resident's name.
    Pseudonym(String),
    /// Show this resident's legacy name only.
    LegacyOnly,
}

/// What an alias says, as characters.
pub enum AliasView {
    /// Show this text.
    Pseudonym(Seq<char>),
    /// Show the legacy name only.
    LegacyOnly,
}

impl View for NameAlias {
    type V = AliasView;

    open spec fn view(&self) -> AliasView {
        match self {
            NameAlias::Pseudonym(s) => AliasView::Pseudonym(s@),
            NameAlias::LegacyOnly => AliasView::LegacyOnly,
        }
    }
}

/// An alias with the same text.
pub fn copy_alias(a: &NameAlias) -> (r: NameAlias)
    ensures
        r@ == a@,
{
    match a {
        NameAlias::Pseudonym(s) => NameAlias::Pseudonym(s.clone()),
        NameAlias::LegacyOnly => NameAlias::LegacyOnly,
    }
}

/// A text, if present, as its characters.
pub open spec fn text_of(o: Option<String>) -> Option<Seq<char>> {
    match o {
        Some(s) => Some(s@),
        None => None,
    }
}

/// A borrowed text, if present, as its characters.
pub open spec fn chars_of(o: Option<&str>) -> Option<Seq<char>> {
    match o {
        Some(s) => Some(s@),
        None => None,
    }
}

/// An optional alias as what it says.
pub open spec fn alias_of(o: Option<NameAlias>) -> Option<AliasView> {
    match o {
        Some(a) => Some(a@),
        None => None,
    }
}

/// One agent's resolved names, merged from every source, and the user's own
/// alias for them.
#[derive(Debug)]
pub struct NameRecord {
    /// The legacy `"First Last"` name (`"First"` alone for a single-name
    /// account), from whichever source arrived first.
    pub legacy: Option<String>,
    /// The immutable dotted account name.
    pub username: Option<String>,
    /// The chosen display name.
    pub display_name: Option<String>,
    /// Whether the display name is just the legacy-derived default.
    pub is_display_name_default: bool,
    /// The user's own name for this resident; never written by an ingest path.
    pub alias: Option<NameAlias>,
}

/// What a name record says, as characters.
pub struct NameView {
    /// The legacy name.
    pub legacy: Option<Seq<char>>,
    /// The account name.
    pub username: Option<Seq<char>>,
    /// The display name.
    pub display_name: Option<Seq<char>>,
    /// Whether the display name is the default one.
    pub is_display_name_default: bool,
    /// The user's alias.
    pub alias: Option<AliasView>,
}

impl View for NameRecord {
    type V = NameView;

    open spec fn view(&self) -> NameView {
        NameView {
            legacy: text_of(self.legacy),
            username: text_of(self.username),
            display_name: text_of(self.display_name),
            is_display_name_default: self.is_display_name_default,
            alias: alias_of(self.alias),
        }
    }
}

impl NameView {
    /// The grid's own answer: the display name, else the legacy name.
    pub open spec fn grid_name(self) -> Option<Seq<char>> {
        match self.display_name {
            Some(d) => Some(d),
            None => self.legacy,
        }
    }

    /// The name to show: the alias's text, else (legacy-only alias) the legacy
    /// name, else the grid's answer.
    pub open spec fn preferred_name(self) -> Option<Seq<char>> {
        match self.alias {
            Some(AliasView::Pseudonym(s)) => Some(s),
            Some(AliasView::LegacyOnly) => self.legacy,
            None => self.grid_name(),
        }
    }

    /// The name to show with display names off: a pseudonym still wins,
    /// otherwise the legacy name.
    pub open spec fn legacy_display_name(self) -> Option<Seq<char>> {
        match self.alias {
            Some(AliasView::Pseudonym(s)) => Some(s),
            _ => self.legacy,
        }
    }

    /// Whether the shown name is something other than the legacy name.
    pub open spec fn has_custom_display_name(self) -> bool {
        match self.alias {
            Some(AliasView::Pseudonym(_)) => true,
            Some(AliasView::LegacyOnly) => false,
            None => self.display_name is Some && !self.is_display_name_default,
        }
    }
}

/// Which name a resident is shown by: a pseudonym always; a legacy-only alias
/// the legacy name; with no alias the display name whenever one resolved, and
/// the legacy name only when none did. With display names switched off the
/// legacy name shows unless a pseudonym was given.
pub proof fn law_a_resolved_display_name_is_shown(v: NameView)
    ensures
        v.alias is None && v.display_name is Some ==> v.preferred_name() == v.display_name && v.grid_name()
            == v.display_name,
        v.alias is None && v.display_name is None ==> v.preferred_name() == v.legacy && v.grid_name() == v.legacy,
        v.alias matches Some(AliasView::Pseudonym(s)) ==> v.preferred_name() == Some(s)
            && v.legacy_display_name() == Some(s),
        v.alias == Some(AliasView::LegacyOnly) ==> v.preferred_name() == v.legacy,
        !(v.alias matches Some(AliasView::Pseudonym(_))) ==> v.legacy_display_name() == v.legacy,
{
}

/// A borrowed view of an optional text.
fn text_ref(o: &Option<String>) -> (r: Option<&str>)
    ensures
        chars_of(r) == text_of(*o),
{
    match o {
        Some(s) => Some(s.as_str()),
        None => None,
    }
}

impl NameRecord {
    /// A record with nothing resolved.
    pub fn new() -> (r: NameRecord)
        ensures
            r@ == (NameView {
                legacy: None,
                username: None,
                display_name: None,
                is_display_name_default: false,
                alias: None,
            }),
    {
        NameRecord { legacy: None, username: None, display_name: None, is_display_name_default: false, alias: None }
    }

    /// The name to show for this resident: the user's alias when they gave
    /// one, else the display name when one resolved, else the legacy name.
    pub fn preferred_name(&self) -> (n: Option<&str>)
        ensures
            chars_of(n) == self@.preferred_name(),
            self@.alias is None && self@.display_name is Some ==> chars_of(n) == self@.display_name,
            self@.alias is None && self@.display_name is None ==> chars_of(n) == self@.legacy,
    {
        match &self.alias {
            Some(NameAlias::Pseudonym(shown)) => Some(shown.as_str()),
            Some(NameAlias::LegacyOnly) => text_ref(&self.legacy),
            None => self.grid_name(),
        }
    }

    /// The preferred name with display names switched off: the legacy name,
    /// but a pseudonym still wins.
    pub fn legacy_display_name(&self) -> (n: Option<&str>)
        ensures
            chars_of(n) == self@.legacy_display_name(),
    {
        match &self.alias {
            Some(NameAlias::Pseudonym(shown)) => Some(shown.as_str()),
            _ => text_ref(&self.legacy),
        }
    }

    /// The grid's own answer, with no alias applied.
    pub fn grid_name(&self) -> (n: Option<&str>)
        ensures
            chars_of(n) == self@.grid_name(),
            self@.display_name is Some ==> chars_of(n) == self@.display_name,
            self@.display_name is None ==> chars_of(n) == self@.legacy,
    {
        match &self.display_name {
            Some(d) => Some(d.as_str()),
            None => text_ref(&self.legacy),
        }
    }

    /// Whether the shown name is something other than this resident's legacy
    /// name — a custom display name, or a pseudonym.
    pub fn has_custom_display_name(&self) -> (b: bool)
        ensures
            b == self@.has_custom_display_name(),
    {
        match &self.alias {
            Some(NameAlias::Pseudonym(_)) => true,
            Some(NameAlias::LegacyOnly) => false,
            None => self.display_name.is_some() && !self.is_display_name_default,
        }
    }
}

impl Default for NameRecord {
    /// A record with nothing resolved.
    fn default() -> (r: NameRecord)
        ensures
            r@ == (NameView {
                legacy: None,
                username: None,
                display_name: None,
                is_display_name_default: false,
                alias: None,
            }),
    {
        NameRecord::new()
    }
}

/// The `i`th character of an agent's provisional tag: the `i`th hex digit of
/// its id, most significant first.
pub open spec fn provisional_char(agent: AgentKey, i: int) -> char {
    hex_digit((agent >> ((124 - 4 * i) as u128)) & 0xf)
}

/// The provisional tag text for an agent before its real name resolves: the
/// leading [`PROVISIONAL_ID_CHARS`] hex digits of its id.
pub open spec fn provisional(agent: AgentKey) -> Seq<char> {
    Seq::new(PROVISIONAL_ID_CHARS as nat, |i: int| provisional_char(agent, i))
}

/// The provisional tag text for an agent before its real name resolves: a
/// short leading fragment of its id (the first eight lowercase hex digits), so
/// avatars are distinguishable at once.
pub fn provisional_label(agent: AgentKey) -> (r: String)
    ensures
        r@ == provisional(agent),
{
    let mut r = String::new();
    let mut i: usize = 0;
    while i < PROVISIONAL_ID_CHARS
        invariant
            i <= PROVISIONAL_ID_CHARS,
            r@ == Seq::new(i as nat, |j: int| provisional_char(agent, j)),
        decreases PROVISIONAL_ID_CHARS - i,
    {
        let shift: u128 = 124 - 4 * (i as u128);
        let v: u128 = (agent >> shift) & 0xf;
        assert(v < 16) by (bit_vector)
            requires
                v == (agent >> shift) & 0xf,
        ;
        push_char(&mut r, hex_digit_of(v));
        proof {
            assert(r@ =~= Seq::new((i + 1) as nat, |j: int| provisional_char(agent, j)));
        }
        i = i + 1;
    }
    proof {
        assert(r@ =~= provisional(agent));
    }
    r
}

/// The pair of entities rendering one avatar: its world-space anchor (a
/// placeholder or the root of a rigged body) and its name-tag node.
#[derive(Debug, Clone, Copy, PartialEq, Eq, Structural)]
pub struct AvatarEntities {
    /// The anchor entity; removed recursively, so a body's whole hierarchy goes
    /// with it.
    pub anchor: Entity,
    /// The floating name-tag entity.
    pub label: Entity,
}

/// One nearby avatar as the map surfaces consume it.
#[derive(Debug, Clone, Copy, PartialEq, Eq, Structural)]
pub struct MapAvatar {
    /// The avatar's agent id.
    pub agent: AgentKey,
    /// The entity whose transform places the avatar.
    pub anchor: Entity,
    /// For a coarse-only avatar, its last coarse altitude in whole metres
    /// (`0` when none is known; `0` and `1020` are the "unknown" sentinels);
    /// `None` for a precisely known full-object avatar.
    pub coarse_z: Option<u16>,
}

/// One display-name answer from the grid's display-name service.
#[derive(Debug)]
pub struct DisplayName {
    /// The agent it names.
    pub id: AgentKey,
    /// The legacy `"First Last"` name it derives.
    pub legacy_name: String,
    /// The dotted account name.
    pub username: String,
    /// The chosen display name.
    pub display_name: String,
    /// Whether the display name is the legacy-derived default.
    pub is_display_name_default: bool,
    /// Whether the grid could not resolve the id (a placeholder answer).
    pub missing: bool,
}

/// Viewer-side avatar bookkeeping: the entities of every nearby avatar, split
/// by the stream it came from, the name cache, and the attachment chains that
/// attribute worn objects to their avatar. Packed scoped ids key the maps of
/// objects.
#[derive(Debug)]
pub struct AvatarState {
    /// The region the scene is anchored at; `None` until the first region.
    pub origin: Option<RegionHandle>,
    /// Avatars known as a full in-world object, by agent.
    pub objects: HashMap<AgentKey, AvatarEntities>,
    /// Avatars known only from coarse (minimap) locations, by agent.
    pub coarse: HashMap<AgentKey, AvatarEntities>,
    /// The source region of each coarse-only avatar.
    pub coarse_region: HashMap<AgentKey, RegionHandle>,
    /// Each full-object avatar's packed scoped id, back to its agent.
    pub by_scoped: HashMap<u64, AgentKey>,
    /// The per-avatar attachment-point node entities, by agent then point.
    pub attachment_nodes: HashMap<AgentKey, HashMap<u8, Entity>>,
    /// The camera's head-focus socket entity per rigged avatar.
    pub head_sockets: HashMap<AgentKey, Entity>,
    /// Resolved names, by agent.
    pub names: HashMap<AgentKey, NameRecord>,
    /// The user's own aliases, folded into every record as it is made.
    pub name_aliases: HashMap<AgentKey, NameAlias>,
    /// Bumped whenever the name cache is written.
    pub names_revision: u64,
    /// Group titles from each avatar object's name values.
    pub titles: HashMap<AgentKey, String>,
    /// Agents whose name has already been requested.
    pub requested: HashSet<AgentKey>,
    /// Agents queued for this frame's batched name request.
    pub pending_name_requests: HashSet<AgentKey>,
    /// The latest appearance parameter bytes per avatar.
    pub appearances: HashMap<AgentKey, Vec<u8>>,
    /// Avatars whose body needs its appearance re-applied.
    pub appearance_dirty: HashSet<AgentKey>,
    /// A generation counter over every input of the skeleton pose fold.
    pub pose_inputs_generation: u64,
    /// Every worn rigged mesh asset bound to each avatar's skeleton.
    pub worn_rigged_meshes: HashMap<AgentKey, HashSet<Uuid>>,
    /// Whether each avatar's skirt slot holds a visible bake.
    pub skirt_visible: HashMap<AgentKey, bool>,
    /// The visible baked texture in each body-region slot per avatar.
    pub baked_textures: HashMap<AgentKey, HashMap<usize, TextureKey>>,
    /// The body-region slots each avatar has baked invisible.
    pub invisible_regions: HashMap<AgentKey, HashSet<usize>>,
    /// The outfit version whose bakes were last fetched per avatar.
    pub baked_cof_version: HashMap<AgentKey, i32>,
    /// Avatars whose body-region bake materials need (re)assigning.
    pub bake_dirty: HashSet<AgentKey>,
    /// The parent (packed scoped id) of every known non-root object.
    pub object_parents: HashMap<u64, u64>,
    /// For each non-root object whose texture entry carries baked-slot
    /// sentinels, the baked slots it replaces.
    pub baked_hides: HashMap<u64, Vec<usize>>,
    /// Non-root objects whose texture entry has already been scanned.
    pub scanned_objects: HashSet<u64>,
    /// Every agent ever surfaced as a full avatar object.
    pub ever_full_object: HashSet<AgentKey>,
    /// The last coarse position seen per coarse-only agent.
    pub coarse_pos: HashMap<AgentKey, (u8, u8, u16)>,
    /// The seat each seated avatar sits on (its seat-relative pose is kept
    /// beside this by the layer that places it).
    pub seated: HashMap<AgentKey, ScopedObjectId>,
}

/// The alias a map of aliases holds for `agent`.
pub open spec fn alias_for(aliases: Map<AgentKey, NameAlias>, agent: AgentKey) -> Option<AliasView> {
    if aliases.contains_key(agent) {
        Some(aliases[agent]@)
    } else {
        None
    }
}

/// The record `names` holds for `agent`, or an empty one.
pub open spec fn record_or_empty(names: Map<AgentKey, NameRecord>, agent: AgentKey) -> NameView {
    if names.contains_key(agent) {
        names[agent]@
    } else {
        NameView { legacy: None, username: None, display_name: None, is_display_name_default: false, alias: None }
    }
}

impl AvatarState {
    /// The agents known only as coarse dots.
    pub open spec fn coarse_only(&self) -> Set<AgentKey> {
        self.coarse@.dom().difference(self.objects@.dom())
    }

    /// The last coarse altitude of `agent`, `0` when none was seen.
    pub open spec fn coarse_z(&self, agent: AgentKey) -> u16 {
        if self.coarse_pos@.contains_key(agent) {
            self.coarse_pos@[agent].2
        } else {
            0
        }
    }
    /// Whether the object under `k` replaces baked slots and its chain
    /// reaches the avatar of `agent`.
    pub open spec fn hides_for(&self, k: u64, agent: AgentKey) -> bool {
        self.baked_hides@.contains_key(k) && chase(self.by_scoped@, self.object_parents@, k, MAX_ATTACHMENT_DEPTH as nat)
            == Some(agent)
    }
    /// The user's aliases.
    pub open spec fn spec_aliases(&self) -> Map<AgentKey, NameAlias> {
        self.name_aliases@
    }

    /// The name-cache revision.
    pub open spec fn spec_names_revision(&self) -> u64 {
        self.names_revision
    }

    /// The group titles.
    pub open spec fn spec_titles(&self) -> Map<AgentKey, String> {
        self.titles@
    }

    /// The agents whose name was requested.
    pub open spec fn spec_requested(&self) -> Set<AgentKey> {
        self.requested@
    }

    /// The pose-inputs generation.
    pub open spec fn spec_pose_generation(&self) -> u64 {
        self.pose_inputs_generation
    }

    /// The worn rigged meshes per avatar.
    pub open spec fn spec_worn_meshes(&self) -> Map<AgentKey, HashSet<Uuid>> {
        self.worn_rigged_meshes@
    }

    /// The objects whose texture entry was scanned.
    pub open spec fn spec_scanned(&self) -> Set<u64> {
        self.scanned_objects@
    }

    /// The record the cache holds for `agent` once made, with the user's alias
    /// folded in.
    pub open spec fn fresh_record(&self, agent: AgentKey) -> NameView {
        NameView { alias: alias_for(self.spec_aliases(), agent), ..record_or_empty(self.names@, agent) }
    }

    /// Whether `b` holds `a`'s name cache: the records, aliases, titles,
    /// requests and revision.
    pub open spec fn same_names(a: &AvatarState, b: &AvatarState) -> bool {
        &&& b.names@ == a.names@
        &&& b.spec_aliases() == a.spec_aliases()
        &&& b.spec_names_revision() == a.spec_names_revision()
        &&& b.spec_titles() == a.spec_titles()
        &&& b.spec_requested() == a.spec_requested()
        &&& b.pending_name_requests@ == a.pending_name_requests@
    }

    /// Whether `b` holds `a`'s scene bookkeeping: everything but the name
    /// cache.
    pub open spec fn same_scene(a: &AvatarState, b: &AvatarState) -> bool {
        &&& b.origin == a.origin
        &&& b.objects@ == a.objects@
        &&& b.coarse@ == a.coarse@
        &&& b.coarse_region@ == a.coarse_region@
        &&& b.by_scoped@ == a.by_scoped@
        &&& b.attachment_nodes@ == a.attachment_nodes@
        &&& b.head_sockets@ == a.head_sockets@
        &&& b.appearances@ == a.appearances@
        &&& b.appearance_dirty@ == a.appearance_dirty@
        &&& b.spec_pose_generation() == a.spec_pose_generation()
        &&& b.spec_worn_meshes() == a.spec_worn_meshes()
        &&& b.skirt_visible@ == a.skirt_visible@
        &&& b.baked_textures@ == a.baked_textures@
        &&& b.invisible_regions@ == a.invisible_regions@
        &&& b.baked_cof_version@ == a.baked_cof_version@
        &&& b.bake_dirty@ == a.bake_dirty@
        &&& b.object_parents@ == a.object_parents@
        &&& b.baked_hides@ == a.baked_hides@
        &&& b.spec_scanned() == a.spec_scanned()
        &&& b.ever_full_object@ == a.ever_full_object@
        &&& b.coarse_pos@ == a.coarse_pos@
        &&& b.seated@ == a.seated@
    }

    /// No avatars, no names, nothing tracked.
    pub fn new() -> (s: AvatarState)
        ensures
            s.origin is None,
            s.objects@.len() == 0,
            s.coarse@.len() == 0,
            s.by_scoped@.len() == 0,
            s.names@.len() == 0,
            s.spec_aliases().len() == 0,
            s.spec_names_revision() == 0,
            s.spec_requested().len() == 0,
            s.pending_name_requests@.len() == 0,
            s.object_parents@.len() == 0,
            s.baked_hides@.len() == 0,
            s.seated@.len() == 0,
    {
        AvatarState {
            origin: None,
            objects: HashMap::new(),
            coarse: HashMap::new(),
            coarse_region: HashMap::new(),
            by_scoped: HashMap::new(),
            attachment_nodes: HashMap::new(),
            head_sockets: HashMap::new(),
            names: HashMap::new(),
            name_aliases: HashMap::new(),
            names_revision: 0,
            titles: HashMap::new(),
            requested: HashSet::new(),
            pending_name_requests: HashSet::new(),
            appearances: HashMap::new(),
            appearance_dirty: HashSet::new(),
            pose_inputs_generation: 0,
            worn_rigged_meshes: HashMap::new(),
            skirt_visible: HashMap::new(),
            baked_textures: HashMap::new(),
            invisible_regions: HashMap::new(),
            baked_cof_version: HashMap::new(),
            bake_dirty: HashSet::new(),
            object_parents: HashMap::new(),
            baked_hides: HashMap::new(),
            scanned_objects: HashSet::new(),
            ever_full_object: HashSet::new(),
            coarse_pos: HashMap::new(),
            seated: HashMap::new(),
        }
    }

    /// How many times the name cache has been written — the signal a view that
    /// draws resolved names rebuilds on.
    pub fn names_revision(&self) -> (r: u64)
        ensures
            r == self.spec_names_revision(),
    {
        self.names_revision
    }

    /// The tag text for an agent: the name to show when one resolved, else a
    /// provisional id fragment.
    pub fn label_text(&self, agent: AgentKey) -> (r: String)
        ensures
            r@ == match (if self.names@.contains_key(agent) {
                self.names@[agent]@.preferred_name()
            } else {
                None
            }) {
                Some(n) => n,
                None => provisional(agent),
            },
    {
        match self.names.get(&agent) {
            Some(record) => match record.preferred_name() {
                Some(n) => n.to_owned(),
                None => provisional_label(agent),
            },
            None => provisional_label(agent),
        }
    }

    /// This agent's resolved legacy name, if one has arrived.
    pub fn name_of(&self, agent: AgentKey) -> (n: Option<&str>)
        ensures
            chars_of(n) == record_or_empty(self.names@, agent).legacy,
    {
        match self.names.get(&agent) {
            Some(record) => text_ref(&record.legacy),
            None => None,
        }
    }

    /// This agent's full name record, if any source answered yet.
    pub fn name_record(&self, agent: AgentKey) -> (r: Option<&NameRecord>)
        ensures
            r matches Some(rec) ==> self.names@.contains_key(agent) && *rec == self.names@[agent],
            r is None <==> !self.names@.contains_key(agent),
    {
        self.names.get(&agent)
    }

    /// The name to show for this agent — alias, else display name, else
    /// legacy name — or `None` while nothing resolved.
    pub fn shown_name_of(&self, agent: AgentKey) -> (n: Option<&str>)
        ensures
            chars_of(n) == (if self.names@.contains_key(agent) {
                self.names@[agent]@.preferred_name()
            } else {
                None
            }),
    {
        match self.names.get(&agent) {
            Some(record) => record.preferred_name(),
            None => None,
        }
    }

    /// Take the record for `agent` out of the cache — made fresh when this is
    /// the first thing known about them — with the user's alias folded in, and
    /// count the touch on the name revision. The caller puts it back.
    fn take_record(&mut self, agent: AgentKey) -> (r: NameRecord)
        ensures
            r@ == old(self).fresh_record(agent),
            final(self).names@ == old(self).names@.remove(agent),
            final(self).spec_names_revision() == next_revision(old(self).spec_names_revision()),
            final(self).spec_aliases() == old(self).spec_aliases(),
            final(self).spec_titles() == old(self).spec_titles(),
            final(self).spec_requested() == old(self).spec_requested(),
            final(self).pending_name_requests@ == old(self).pending_name_requests@,
            AvatarState::same_scene(old(self), final(self)),
    {
        let alias = match self.name_aliases.get(&agent) {
            Some(a) => Some(copy_alias(a)),
            None => None,
        };
        self.names_revision = bump(self.names_revision);
        let mut record = match self.names.remove(&agent) {
            Some(r) => r,
            None => NameRecord::new(),
        };
        record.alias = alias;
        record
    }

    /// Replace the user's name aliases, re-folding every cached record so an
    /// alias given (or cleared) now shows (or stops showing) everywhere at
    /// once; the name revision moves.
    pub fn set_name_aliases(&mut self, aliases: HashMap<AgentKey, NameAlias>)
        ensures
            AvatarState::same_scene(old(self), final(self)),
            final(self).names@.dom() == old(self).names@.dom(),
            forall|a: AgentKey| #[trigger] old(self).names@.contains_key(a) ==> final(self).names@[a]@ == (NameView {
                alias: alias_for(aliases@, a),
                ..old(self).names@[a]@
            }),
            final(self).spec_aliases() == aliases@,
            final(self).spec_names_revision() == next_revision(old(self).spec_names_revision()),
            final(self).spec_titles() == old(self).spec_titles(),
            final(self).spec_requested() == old(self).spec_requested(),
            final(self).pending_name_requests@ == old(self).pending_name_requests@,
    {
        let keys = map_keys(&self.names);
        for i in 0..keys.len()
            invariant
                keys@.no_duplicates(),
                forall|k: AgentKey| keys@.contains(k) <==> old(self).names@.contains_key(k),
                self.names@.dom() == old(self).names@.dom(),
                forall|a: AgentKey| #[trigger] self.names@.contains_key(a) ==> self.names@[a]@ == (NameView {
                    alias: if keys@.take(i as int).contains(a) {
                        alias_for(aliases@, a)
                    } else {
                        old(self).names@[a]@.alias
                    },
                    ..old(self).names@[a]@
                }),
                AvatarState::same_scene(old(self), self),
                self.name_aliases@ == old(self).name_aliases@,
                self.names_revision == old(self).names_revision,
                self.titles@ == old(self).titles@,
                self.requested@ == old(self).requested@,
                self.pending_name_requests@ == old(self).pending_name_requests@,
        {
            let agent = keys[i];
            proof {
                assert(keys@.contains(agent));
            }
            let mut record = self.names.remove(&agent).unwrap();
            record.alias = match aliases.get(&agent) {
                Some(a) => Some(copy_alias(a)),
                None => None,
            };
            self.names.insert(agent, record);
            proof {
                let t = keys@.take(i + 1);
                assert(t =~= keys@.take(i as int).push(agent));
                assert(self.names@.dom() =~= old(self).names@.dom());
                assert forall|a: AgentKey| #[trigger] t.contains(a) <==> (keys@.take(i as int).contains(a) || a == agent) by {
                    if t.contains(a) && a != agent {
                        let y = choose|y: int| 0 <= y < t.len() && t[y] == a;
                        assert(keys@.take(i as int)[y] == a);
                    }
                    if keys@.take(i as int).contains(a) {
                        let y = choose|y: int| 0 <= y < i && keys@.take(i as int)[y] == a;
                        assert(t[y] == a);
                    }
                    if a == agent {
                        assert(t[i as int] == a);
                    }
                }
            }
        }
        self.name_aliases = aliases;
        self.names_revision = bump(self.names_revision);
        proof {
            assert(keys@.take(keys.len() as int) =~= keys@);
            assert forall|a: AgentKey| #[trigger] old(self).names@.contains_key(a) implies keys@.contains(a) by {}
        }
    }

    /// This agent's group title, if it has one.
    pub fn title_of(&self, agent: AgentKey) -> (t: Option<&str>)
        ensures
            chars_of(t) == (if self.titles@.contains_key(agent) {
                Some(self.titles@[agent]@)
            } else {
                None
            }),
    {
        match self.titles.get(&agent) {
            Some(t) => Some(t.as_str()),
            None => None,
        }
    }

    /// The agent whose avatar object carries the scoped id `scoped`, if known.
    pub fn agent_of_scoped(&self, scoped: ScopedObjectId) -> (a: Option<AgentKey>)
        ensures
            a == (if self.by_scoped@.contains_key(scoped.packed()) {
                Some(self.by_scoped@[scoped.packed()])
            } else {
                None::<AgentKey>
            }),
    {
        match self.by_scoped.get(&scoped.key()) {
            Some(a) => Some(*a),
            None => None,
        }
    }

    /// The agent whose avatar is known under the scoped id `avatar_scoped` —
    /// the wearer of an attachment whose parent is that object.
    pub fn agent_of(&self, avatar_scoped: ScopedObjectId) -> (a: Option<AgentKey>)
        ensures
            a == (if self.by_scoped@.contains_key(avatar_scoped.packed()) {
                Some(self.by_scoped@[avatar_scoped.packed()])
            } else {
                None::<AgentKey>
            }),
    {
        self.agent_of_scoped(avatar_scoped)
    }

    /// Mark this avatar's body-region materials for (re)assignment.
    pub fn mark_bake_dirty(&mut self, agent: AgentKey)
        ensures
            final(self).bake_dirty@ == old(self).bake_dirty@.insert(agent),
            AvatarState::same_names(old(self), final(self)),
            final(self).objects@ == old(self).objects@,
            final(self).baked_textures@ == old(self).baked_textures@,
    {
        let _fresh = self.bake_dirty.insert(agent);
    }

    /// How many body regions this avatar has a visible bake in.
    pub fn visible_bake_count(&self, agent: AgentKey) -> (n: usize)
        ensures
            n == (if self.baked_textures@.contains_key(agent) {
                self.baked_textures@[agent]@.len()
            } else {
                0
            }),
    {
        match self.baked_textures.get(&agent) {
            Some(slots) => slots.len(),
            None => 0,
        }
    }

    /// Whether `agent`'s avatar is seated on an object.
    pub fn is_seated(&self, agent: AgentKey) -> (b: bool)
        ensures
            b == self.seated@.contains_key(agent),
    {
        self.seated.contains_key(&agent)
    }

    /// The anchor entity of an agent's in-world presence, a full object
    /// preferred over a coarse dot.
    pub fn root_entity_of(&self, agent: AgentKey) -> (e: Option<Entity>)
        ensures
            e == (if self.objects@.contains_key(agent) {
                Some(self.objects@[agent].anchor)
            } else if self.coarse@.contains_key(agent) {
                Some(self.coarse@[agent].anchor)
            } else {
                None::<Entity>
            }),
    {
        match self.objects.get(&agent) {
            Some(e) => Some(e.anchor),
            None => match self.coarse.get(&agent) {
                Some(e) => Some(e.anchor),
                None => None,
            },
        }
    }

    /// The name-tag entity of an agent, a full object preferred over a coarse
    /// dot.
    pub fn label_of(&self, agent: AgentKey) -> (e: Option<Entity>)
        ensures
            e == (if self.objects@.contains_key(agent) {
                Some(self.objects@[agent].label)
            } else if self.coarse@.contains_key(agent) {
                Some(self.coarse@[agent].label)
            } else {
                None::<Entity>
            }),
    {
        match self.objects.get(&agent) {
            Some(e) => Some(e.label),
            None => match self.coarse.get(&agent) {
                Some(e) => Some(e.label),
                None => None,
            },
        }
    }

    /// The body-root (anchor) entity of an agent's full-object avatar.
    pub fn body_root_of(&self, agent: AgentKey) -> (e: Option<Entity>)
        ensures
            e == (if self.objects@.contains_key(agent) {
                Some(self.objects@[agent].anchor)
            } else {
                None::<Entity>
            }),
    {
        match self.objects.get(&agent) {
            Some(e) => Some(e.anchor),
            None => None,
        }
    }

    /// The anchor entity of an agent's full-object avatar.
    pub fn anchor_of(&self, agent: AgentKey) -> (e: Option<Entity>)
        ensures
            e == (if self.objects@.contains_key(agent) {
                Some(self.objects@[agent].anchor)
            } else {
                None::<Entity>
            }),
    {
        self.body_root_of(agent)
    }

    /// Whether `agent` has a spawned rigged body (it has a head socket).
    pub fn is_rigged(&self, agent: AgentKey) -> (b: bool)
        ensures
            b == self.head_sockets@.contains_key(agent),
    {
        self.head_sockets.contains_key(&agent)
    }

    /// The head-focus socket entity of an agent's rigged avatar.
    pub fn head_socket_of(&self, agent: AgentKey) -> (e: Option<Entity>)
        ensures
            e == (if self.head_sockets@.contains_key(agent) {
                Some(self.head_sockets@[agent])
            } else {
                None::<Entity>
            }),
    {
        match self.head_sockets.get(&agent) {
            Some(e) => Some(*e),
            None => None,
        }
    }

    /// The attachment-point node a worn attachment parents to: the node for
    /// `point_id` on the rigged body of the avatar known under
    /// `avatar_scoped`.
    pub fn attachment_point_entity(&self, avatar_scoped: ScopedObjectId, point_id: u8) -> (e: Option<Entity>)
        ensures
            e == (if self.by_scoped@.contains_key(avatar_scoped.packed()) && self.attachment_nodes@.contains_key(
                self.by_scoped@[avatar_scoped.packed()],
            ) && self.attachment_nodes@[self.by_scoped@[avatar_scoped.packed()]]@.contains_key(point_id) {
                Some(self.attachment_nodes@[self.by_scoped@[avatar_scoped.packed()]]@[point_id])
            } else {
                None::<Entity>
            }),
    {
        let agent = match self.by_scoped.get(&avatar_scoped.key()) {
            Some(a) => *a,
            None => return None,
        };
        match self.attachment_nodes.get(&agent) {
            Some(nodes) => match nodes.get(&point_id) {
                Some(e) => Some(*e),
                None => None,
            },
            None => None,
        }
    }

    /// The attachment-point nodes of `agent`'s rigged body as `(raw point id,
    /// node entity)` pairs, each point once; empty for an avatar with no
    /// rigged body.
    pub fn attachment_nodes_of(&self, agent: AgentKey) -> (r: Vec<(u8, Entity)>)
        ensures
            forall|i: int, j: int| 0 <= i < j < r@.len() ==> (#[trigger] r@[i]).0 != (#[trigger] r@[j]).0,
            forall|p: u8, e: Entity| #[trigger] r@.contains((p, e)) <==> (self.attachment_nodes@.contains_key(agent)
                && self.attachment_nodes@[agent]@.contains_key(p) && self.attachment_nodes@[agent]@[p] == e),
    {
        let mut r: Vec<(u8, Entity)> = Vec::new();
        match self.attachment_nodes.get(&agent) {
            None => {
                assert forall|p: u8, e: Entity| #[trigger] r@.contains((p, e)) <==> (self.attachment_nodes@.contains_key(agent)
                    && self.attachment_nodes@[agent]@.contains_key(p) && self.attachment_nodes@[agent]@[p] == e) by {
                    assert(!r@.contains((p, e)));
                }
            },
            Some(nodes) => {
                let points = map_keys(nodes);
                for i in 0..points.len()
                    invariant
                        points@.no_duplicates(),
                        forall|p: u8| points@.contains(p) <==> nodes@.contains_key(p),
                        r@.len() == i,
                        forall|j: int| 0 <= j < i ==> #[trigger] r@[j] == (points@[j], nodes@[points@[j]]),
                {
                    let p = points[i];
                    assert(points@.contains(p));
                    let e = *nodes.get(&p).unwrap();
                    r.push((p, e));
                }
                proof {
                    assert forall|a: int, b: int| 0 <= a < b < r@.len() implies (#[trigger] r@[a]).0 != (
                    #[trigger] r@[b]).0 by {
                        assert(r@[a].0 == points@[a] && r@[b].0 == points@[b]);
                    }
                    assert forall|p: u8, e: Entity| #[trigger] r@.contains((p, e)) <==> (nodes@.contains_key(p)
                        && nodes@[p] == e) by {
                        if r@.contains((p, e)) {
                            let j = choose|j: int| 0 <= j < r@.len() && r@[j] == (p, e);
                            assert(points@.contains(points@[j]));
                        }
                        if nodes@.contains_key(p) && nodes@[p] == e {
                            assert(points@.contains(p));
                            let j = choose|j: int| 0 <= j < points@.len() && points@[j] == p;
                            assert(r@[j] == (p, e));
                        }
                    }
                }
            },
        }
        r
    }

    /// Every labelled avatar as `(agent, anchor entity, label entity)`: the
    /// full objects first, then the coarse-only ones (a coarse twin of a full
    /// object is left out), each agent once.
    #[verifier::rlimit(40)]
    pub fn labelled_avatars(&self) -> (r: Vec<(AgentKey, Entity, Entity)>)
        ensures
            r@.len() >= self.objects@.len(),
            forall|i: int, j: int| 0 <= i < j < r@.len() ==> (#[trigger] r@[i]).0 != (#[trigger] r@[j]).0,
            forall|i: int| 0 <= i < self.objects@.len() ==> self.objects@.contains_key((#[trigger] r@[i]).0)
                && self.objects@[r@[i].0].anchor == r@[i].1 && self.objects@[r@[i].0].label == r@[i].2,
            forall|i: int| self.objects@.len() <= i < r@.len() ==> !self.objects@.contains_key((#[trigger] r@[i]).0)
                && self.coarse@.contains_key(r@[i].0) && self.coarse@[r@[i].0].anchor == r@[i].1
                && self.coarse@[r@[i].0].label == r@[i].2,
            forall|a: AgentKey| (self.objects@.contains_key(a) || self.coarse@.contains_key(a)) ==> exists|i: int|
                0 <= i < r@.len() && (#[trigger] r@[i]).0 == a,
    {
        let full = map_keys(&self.objects);
        let mut r: Vec<(AgentKey, Entity, Entity)> = Vec::new();
        proof {
            full@.unique_seq_to_set();
            assert(full@.to_set() =~= self.objects@.dom());
        }
        for i in 0..full.len()
            invariant
                full@.no_duplicates(),
                full@.len() == self.objects@.len(),
                forall|a: AgentKey| full@.contains(a) <==> self.objects@.contains_key(a),
                r@.len() == i,
                forall|j: int| 0 <= j < i ==> (#[trigger] r@[j]).0 == full@[j] && self.objects@[full@[j]].anchor
                    == r@[j].1 && self.objects@[full@[j]].label == r@[j].2,
        {
            let a = full[i];
            assert(full@.contains(a));
            let e = self.objects.get(&a).unwrap();
            r.push((a, e.anchor, e.label));
        }
        let n = r.len();
        let coarse = map_keys(&self.coarse);
        for i in 0..coarse.len()
            invariant
                full@.no_duplicates(),
                full@.len() == self.objects@.len(),
                n == full@.len(),
                forall|a: AgentKey| full@.contains(a) <==> self.objects@.contains_key(a),
                coarse@.no_duplicates(),
                forall|a: AgentKey| coarse@.contains(a) <==> self.coarse@.contains_key(a),
                r@.len() >= n,
                forall|j: int| 0 <= j < n ==> (#[trigger] r@[j]).0 == full@[j] && self.objects@[full@[j]].anchor
                    == r@[j].1 && self.objects@[full@[j]].label == r@[j].2,
                forall|j: int| n <= j < r@.len() ==> !self.objects@.contains_key((#[trigger] r@[j]).0)
                    && self.coarse@.contains_key(r@[j].0) && self.coarse@[r@[j].0].anchor == r@[j].1
                    && self.coarse@[r@[j].0].label == r@[j].2 && exists|k: int| 0 <= k < i && coarse@[k] == r@[j].0,
                forall|j1: int, j2: int| n <= j1 < j2 < r@.len() ==> (#[trigger] r@[j1]).0 != (#[trigger] r@[j2]).0,
                forall|k: int| 0 <= k < i && !self.objects@.contains_key(#[trigger] coarse@[k]) ==> exists|j: int|
                    n <= j < r@.len() && r@[j].0 == coarse@[k],
        {
            let a = coarse[i];
            assert(coarse@.contains(a));
            if !self.objects.contains_key(&a) {
                let e = self.coarse.get(&a).unwrap();
                let ghost before = r@;
                r.push((a, e.anchor, e.label));
                proof {
                    assert forall|j1: int, j2: int| n <= j1 < j2 < r@.len() implies (#[trigger] r@[j1]).0 != (
                    #[trigger] r@[j2]).0 by {
                        if j2 == r@.len() - 1 {
                            let k = choose|k: int| 0 <= k < i && coarse@[k] == before[j1].0;
                            assert(k != i);
                        }
                    }
                    assert(r@[r@.len() - 1].0 == coarse@[i as int]);
                    assert forall|k: int| 0 <= k < i + 1 && !self.objects@.contains_key(#[trigger] coarse@[k]) implies exists|j: int|
                        n <= j < r@.len() && r@[j].0 == coarse@[k] by {
                        if k < i {
                            let j = choose|j: int| n <= j < before.len() && before[j].0 == coarse@[k];
                            assert(r@[j] == before[j]);
                        } else {
                            assert(r@[r@.len() - 1].0 == coarse@[k]);
                        }
                    }
                    assert forall|j: int| n <= j < r@.len() implies !self.objects@.contains_key((#[trigger] r@[j]).0)
                        && self.coarse@.contains_key(r@[j].0) && self.coarse@[r@[j].0].anchor == r@[j].1
                        && self.coarse@[r@[j].0].label == r@[j].2 && exists|k: int| 0 <= k < i + 1 && coarse@[k] == r@[j].0 by {
                        if j < before.len() {
                            assert(r@[j] == before[j]);
                            let k = choose|k: int| 0 <= k < i && coarse@[k] == before[j].0;
                        } else {
                            assert(coarse@[i as int] == r@[j].0);
                        }
                    }
                }
            } else {
                proof {
                    assert forall|j: int| n <= j < r@.len() implies exists|k: int| 0 <= k < i + 1 && coarse@[k] == (
                    #[trigger] r@[j]).0 by {
                        let k = choose|k: int| 0 <= k < i && coarse@[k] == r@[j].0;
                    }
                }
            }
        }
        proof {
            assert forall|i: int, j: int| 0 <= i < j < r@.len() implies (#[trigger] r@[i]).0 != (#[trigger] r@[j]).0 by {
                if j < n {
                } else if i < n {
                    assert(full@.contains(full@[i]));
                }
            }
            assert forall|a: AgentKey| (self.objects@.contains_key(a) || self.coarse@.contains_key(a)) implies exists|i: int|
                0 <= i < r@.len() && (#[trigger] r@[i]).0 == a by {
                if self.objects@.contains_key(a) {
                    assert(full@.contains(a));
                    let j = choose|j: int| 0 <= j < full@.len() && full@[j] == a;
                    assert(r@[j].0 == a);
                } else {
                    assert(coarse@.contains(a));
                    let k = choose|k: int| 0 <= k < coarse@.len() && coarse@[k] == a;
                    assert(!self.objects@.contains_key(coarse@[k]));
                }
            }
        }
        r
    }
    /// The pose-inputs generation.
    pub fn pose_inputs_generation(&self) -> (g: u64)
        ensures
            g == self.spec_pose_generation(),
    {
        self.pose_inputs_generation
    }

    /// Record that an input of the skeleton pose fold was (re)applied.
    pub fn bump_pose_inputs(&mut self)
        ensures
            final(self).spec_pose_generation() == next_revision(old(self).spec_pose_generation()),
            AvatarState::same_names(old(self), final(self)),
            final(self).objects@ == old(self).objects@,
            final(self).spec_worn_meshes() == old(self).spec_worn_meshes(),
    {
        self.pose_inputs_generation = bump(self.pose_inputs_generation);
    }

    /// Note that `agent` wears the rigged mesh asset `mesh`. Idempotent.
    pub fn record_worn_rigged_mesh(&mut self, agent: AgentKey, mesh: Uuid)
        ensures
            final(self).spec_worn_meshes().dom() == old(self).spec_worn_meshes().dom().insert(agent),
            final(self).spec_worn_meshes()[agent]@ == (if old(self).spec_worn_meshes().contains_key(agent) {
                old(self).spec_worn_meshes()[agent]@
            } else {
                Set::<Uuid>::empty()
            }).insert(mesh),
            forall|a: AgentKey| a != agent && #[trigger] old(self).spec_worn_meshes().contains_key(a)
                ==> final(self).spec_worn_meshes()[a] == old(self).spec_worn_meshes()[a],
            AvatarState::same_names(old(self), final(self)),
            final(self).spec_pose_generation() == old(self).spec_pose_generation(),
    {
        let mut set = match self.worn_rigged_meshes.remove(&agent) {
            Some(s) => s,
            None => HashSet::new(),
        };
        let _new = set.insert(mesh);
        self.worn_rigged_meshes.insert(agent, set);
        proof {
            assert(self.spec_worn_meshes().dom() =~= old(self).spec_worn_meshes().dom().insert(agent));
        }
    }

    /// Every avatar with a spawned rigged body, each once.
    pub fn rigged_agents(&self) -> (r: Vec<AgentKey>)
        ensures
            r@.no_duplicates(),
            forall|a: AgentKey| r@.contains(a) <==> self.head_sockets@.contains_key(a),
    {
        map_keys(&self.head_sockets)
    }
    /// Seed the name cache and the title from an avatar object's name values.
    /// A first name makes the legacy name — `"First Last"`, or the first name
    /// alone when the last is missing, empty or `Resident` (any case) — which
    /// fills the record only when no legacy name is known (a non-empty one
    /// touches the record even then). A present title is stored with its
    /// control characters stripped, and an empty one takes the title off.
    pub fn seed_name_fields(
        &mut self,
        agent: AgentKey,
        first: Option<String>,
        last: Option<String>,
        title: Option<String>,
    )
        ensures
            AvatarState::same_scene(old(self), final(self)),
            final(self).spec_aliases() == old(self).spec_aliases(),
            final(self).spec_requested() == old(self).spec_requested(),
            final(self).pending_name_requests@ == old(self).pending_name_requests@,
            match seeded_legacy(first, last) {
                None => final(self).names@ == old(self).names@ && final(self).spec_names_revision()
                    == old(self).spec_names_revision(),
                Some(text) => {
                    let fresh = old(self).fresh_record(agent);
                    &&& final(self).names@.dom() == old(self).names@.dom().insert(agent)
                    &&& forall|a: AgentKey| a != agent && #[trigger] old(self).names@.contains_key(a)
                        ==> final(self).names@[a] == old(self).names@[a]
                    &&& final(self).names@[agent]@ == (NameView {
                        legacy: if fresh.legacy is Some {
                            fresh.legacy
                        } else {
                            Some(text)
                        },
                        ..fresh
                    })
                    &&& final(self).spec_names_revision() == next_revision(old(self).spec_names_revision())
                },
            },
            match title {
                None => final(self).spec_titles() == old(self).spec_titles(),
                Some(t) => if without_controls(t@).len() == 0 {
                    final(self).spec_titles() == old(self).spec_titles().remove(agent)
                } else {
                    &&& final(self).spec_titles().dom() == old(self).spec_titles().dom().insert(agent)
                    &&& final(self).spec_titles()[agent]@ == without_controls(t@)
                    &&& forall|a: AgentKey| a != agent && #[trigger] old(self).spec_titles().contains_key(a)
                        ==> final(self).spec_titles()[a] == old(self).spec_titles()[a]
                },
            },
    {
        let ghost title_in = title;
        if let Some(first) = first {
            let legacy = match last {
                Some(last) => {
                    if last.as_str().unicode_len() > 0 && !str_eq_ignore_ascii_case(last.as_str(), "Resident") {
                        let mut joined = String::new();
                        push_str(&mut joined, first.as_str());
                        push_char(&mut joined, ' ');
                        push_str(&mut joined, last.as_str());
                        proof {
                            assert(joined@ =~= first@ + seq![' '] + last@);
                        }
                        joined
                    } else {
                        first
                    }
                },
                None => first,
            };
            if legacy.as_str().unicode_len() > 0 {
                let mut record = self.take_record(agent);
                if record.legacy.is_none() {
                    record.legacy = Some(legacy);
                }
                self.names.insert(agent, record);
                proof {
                    assert(self.names@.dom() =~= old(self).names@.dom().insert(agent));
                }
            }
        }
        if let Some(title) = title {
            let cleaned = strip_controls(title.as_str());
            if cleaned.as_str().unicode_len() == 0 {
                let _gone = self.titles.remove(&agent);
            } else {
                let _prior = self.titles.insert(agent, cleaned);
                proof {
                    assert(self.titles@.dom() =~= old(self).titles@.dom().insert(agent));
                }
            }
        }
    }

    /// Fold one display-name answer into the cache — legacy, account and
    /// display name and the default flag, the alias folded in as always —
    /// and say whether anything was (potentially) updated. A `missing`
    /// placeholder changes nothing, so the legacy fallback stays.
    pub fn merge_display_name_record(&mut self, resolved: &DisplayName) -> (changed: bool)
        ensures
            changed == !resolved.missing,
            AvatarState::same_scene(old(self), final(self)),
            resolved.missing ==> AvatarState::same_names(old(self), final(self)),
            !resolved.missing ==> {
                let fresh = old(self).fresh_record(resolved.id);
                &&& final(self).names@.dom() == old(self).names@.dom().insert(resolved.id)
                &&& forall|a: AgentKey| a != resolved.id && #[trigger] old(self).names@.contains_key(a)
                    ==> final(self).names@[a] == old(self).names@[a]
                &&& final(self).names@[resolved.id]@ == (NameView {
                    legacy: Some(resolved.legacy_name@),
                    username: Some(resolved.username@),
                    display_name: Some(resolved.display_name@),
                    is_display_name_default: resolved.is_display_name_default,
                    alias: fresh.alias,
                })
                &&& final(self).spec_names_revision() == next_revision(old(self).spec_names_revision())
                &&& final(self).spec_aliases() == old(self).spec_aliases()
                &&& final(self).spec_titles() == old(self).spec_titles()
                &&& final(self).spec_requested() == old(self).spec_requested()
                &&& final(self).pending_name_requests@ == old(self).pending_name_requests@
            },
    {
        if resolved.missing {
            return false;
        }
        let mut record = self.take_record(resolved.id);
        record.legacy = Some(resolved.legacy_name.clone());
        record.username = Some(resolved.username.clone());
        record.display_name = Some(resolved.display_name.clone());
        record.is_display_name_default = resolved.is_display_name_default;
        self.names.insert(resolved.id, record);
        proof {
            assert(self.names@.dom() =~= old(self).names@.dom().insert(resolved.id));
        }
        true
    }

    /// Record a resolved legacy name for `agent`, replacing any known one.
    pub fn set_name(&mut self, agent: AgentKey, legacy: String)
        ensures
            AvatarState::same_scene(old(self), final(self)),
            final(self).names@.dom() == old(self).names@.dom().insert(agent),
            forall|a: AgentKey| a != agent && #[trigger] old(self).names@.contains_key(a) ==> final(self).names@[a]
                == old(self).names@[a],
            final(self).names@[agent]@ == (NameView { legacy: Some(legacy@), ..old(self).fresh_record(agent) }),
            final(self).spec_names_revision() == next_revision(old(self).spec_names_revision()),
            final(self).spec_aliases() == old(self).spec_aliases(),
            final(self).spec_titles() == old(self).spec_titles(),
            final(self).spec_requested() == old(self).spec_requested(),
            final(self).pending_name_requests@ == old(self).pending_name_requests@,
    {
        let ghost text = legacy@;
        let mut record = self.take_record(agent);
        record.legacy = Some(legacy);
        self.names.insert(agent, record);
        proof {
            assert(self.names@.dom() =~= old(self).names@.dom().insert(agent));
        }
    }

    /// Queue a name request for `agent` once: a no-op when one is already in
    /// flight or answered.
    pub fn request_name(&mut self, agent: AgentKey)
        ensures
            final(self).spec_requested() == old(self).spec_requested().insert(agent),
            final(self).pending_name_requests@ == if old(self).spec_requested().contains(agent) {
                old(self).pending_name_requests@
            } else {
                old(self).pending_name_requests@.insert(agent)
            },
            final(self).names@ == old(self).names@,
            final(self).spec_names_revision() == old(self).spec_names_revision(),
            AvatarState::same_scene(old(self), final(self)),
    {
        if !self.requested.insert(agent) {
            return;
        }
        let _queued = self.pending_name_requests.insert(agent);
    }
    /// Every avatar this viewer knows in-world with the entity that places it
    /// — each full-object avatar once, then each coarse-only one once.
    pub fn known_agents(&self) -> (r: Vec<(AgentKey, Entity)>)
        ensures
            exists|ks1: Seq<AgentKey>, ks2: Seq<AgentKey>|
                #![trigger lists_exactly(ks1, self.objects@.dom()), lists_exactly(ks2, self.coarse_only())]
                lists_exactly(ks1, self.objects@.dom()) && lists_exactly(ks2, self.coarse_only()) && r@
                    == ks1.map_values(|a: AgentKey| (a, self.objects@[a].anchor)) + ks2.map_values(
                    |a: AgentKey| (a, self.coarse@[a].anchor),
                ),
    {
        let okeys = map_keys(&self.objects);
        let ckeys = map_keys(&self.coarse);
        let mut out: Vec<(AgentKey, Entity)> = Vec::new();
        for i in 0..okeys.len()
            invariant
                forall|k: AgentKey| okeys@.contains(k) <==> self.objects@.contains_key(k),
                out@ == okeys@.take(i as int).map_values(|a: AgentKey| (a, self.objects@[a].anchor)),
        {
            let a = okeys[i];
            assert(okeys@.contains(a));
            out.push((a, self.objects.get(&a).unwrap().anchor));
            proof {
                assert(okeys@.take(i + 1) =~= okeys@.take(i as int).push(a));
                assert(out@ =~= okeys@.take(i + 1).map_values(|a: AgentKey| (a, self.objects@[a].anchor)));
            }
        }
        proof {
            assert(okeys@.take(okeys.len() as int) =~= okeys@);
        }
        let ghost first = out@;
        let ghost mut ks2: Seq<AgentKey> = Seq::empty();
        for j in 0..ckeys.len()
            invariant
                ckeys@.no_duplicates(),
                forall|k: AgentKey| ckeys@.contains(k) <==> self.coarse@.contains_key(k),
                ks2.no_duplicates(),
                forall|a: AgentKey| #[trigger] ks2.contains(a) ==> (self.coarse_only().contains(a) && exists|y: int|
                    0 <= y < j && ckeys@[y] == a),
                forall|y: int| 0 <= y < j && self.coarse_only().contains(#[trigger] ckeys@[y]) ==> ks2.contains(ckeys@[y]),
                out@ == first + ks2.map_values(|a: AgentKey| (a, self.coarse@[a].anchor)),
        {
            let a = ckeys[j];
            assert(ckeys@.contains(a));
            if !self.objects.contains_key(&a) {
                proof {
                    assert forall|x: AgentKey| ks2.contains(x) implies x != a by {
                        let y = choose|y: int| 0 <= y < j && ckeys@[y] == x;
                        assert(ckeys@[y] != ckeys@[j as int]);
                    }
                }
                let ghost before = ks2;
                out.push((a, self.coarse.get(&a).unwrap().anchor));
                proof {
                    ks2 = ks2.push(a);
                    assert(out@ =~= first + ks2.map_values(|a: AgentKey| (a, self.coarse@[a].anchor)));
                    assert forall|p: int, q: int| 0 <= p < ks2.len() && 0 <= q < ks2.len() && p != q implies ks2[p] != ks2[q] by {
                        if p < before.len() && q < before.len() {
                        } else if p < before.len() {
                            assert(before.contains(ks2[p]));
                        } else {
                            assert(before.contains(ks2[q]));
                        }
                    }
                    assert forall|x: AgentKey| #[trigger] ks2.contains(x) implies (self.coarse_only().contains(x) && exists|y: int|
                        0 <= y < j + 1 && ckeys@[y] == x) by {
                        if x == a {
                            assert(ckeys@[j as int] == x);
                        } else {
                            let z = choose|z: int| 0 <= z < ks2.len() && ks2[z] == x;
                            assert(before.contains(x));
                        }
                    }
                    assert forall|y: int| 0 <= y < j + 1 && self.coarse_only().contains(#[trigger] ckeys@[y]) implies ks2.contains(
                        ckeys@[y],
                    ) by {
                        if y < j {
                            let z = choose|z: int| 0 <= z < before.len() && before[z] == ckeys@[y];
                            assert(ks2[z] == before[z]);
                        } else {
                            assert(ks2[before.len() as int] == a);
                        }
                    }
                }
            }
        }
        proof {
            assert forall|a: AgentKey| self.coarse_only().contains(a) implies #[trigger] ks2.contains(a) by {
                assert(ckeys@.contains(a));
                let y = choose|y: int| 0 <= y < ckeys.len() && ckeys@[y] == a;
            }
            assert(lists_exactly(okeys@, self.objects@.dom()));
            assert(lists_exactly(ks2, self.coarse_only()));
        }
        out
    }

    /// Every nearby avatar as the map surfaces consume it: each full-object
    /// avatar once, then each coarse-only one once with its last coarse
    /// altitude (`0` when none was seen).
    pub fn map_avatars(&self) -> (r: Vec<MapAvatar>)
        ensures
            r@.len() == self.objects@.len() + self.coarse_only().len(),
            exists|ks1: Seq<AgentKey>, ks2: Seq<AgentKey>|
                #![trigger lists_exactly(ks1, self.objects@.dom()), lists_exactly(ks2, self.coarse_only())]
                lists_exactly(ks1, self.objects@.dom()) && lists_exactly(ks2, self.coarse_only()) && r@
                    == ks1.map_values(|a: AgentKey| MapAvatar { agent: a, anchor: self.objects@[a].anchor, coarse_z: None })
                    + ks2.map_values(|a: AgentKey| MapAvatar { agent: a, anchor: self.coarse@[a].anchor, coarse_z: Some(self.coarse_z(a)) }),
    {
        let known = self.known_agents();
        let mut out: Vec<MapAvatar> = Vec::new();
        let ghost (ks1, ks2) = choose|ks1: Seq<AgentKey>, ks2: Seq<AgentKey>|
            #![trigger lists_exactly(ks1, self.objects@.dom()), lists_exactly(ks2, self.coarse_only())]
            lists_exactly(ks1, self.objects@.dom()) && lists_exactly(ks2, self.coarse_only()) && known@
                == ks1.map_values(|a: AgentKey| (a, self.objects@[a].anchor)) + ks2.map_values(
                |a: AgentKey| (a, self.coarse@[a].anchor),
            );
        let ghost want = ks1.map_values(|a: AgentKey| MapAvatar { agent: a, anchor: self.objects@[a].anchor, coarse_z: None })
            + ks2.map_values(|a: AgentKey| MapAvatar { agent: a, anchor: self.coarse@[a].anchor, coarse_z: Some(self.coarse_z(a)) });
        proof {
            ks1.unique_seq_to_set();
            assert(ks1.to_set() =~= self.objects@.dom());
            ks2.unique_seq_to_set();
            assert(ks2.to_set() =~= self.coarse_only());
        }
        for i in 0..known.len()
            invariant
                self.objects@.len() == ks1.len(),
                known@ == ks1.map_values(|a: AgentKey| (a, self.objects@[a].anchor)) + ks2.map_values(
                    |a: AgentKey| (a, self.coarse@[a].anchor),
                ),
                want == ks1.map_values(|a: AgentKey| MapAvatar { agent: a, anchor: self.objects@[a].anchor, coarse_z: None })
                    + ks2.map_values(|a: AgentKey| MapAvatar { agent: a, anchor: self.coarse@[a].anchor, coarse_z: Some(self.coarse_z(a)) }),
                out@ == want.take(i as int),
        {
            let (a, anchor) = known[i];
            let coarse_z = if i < self.objects.len() {
                None
            } else {
                Some(match self.coarse_pos.get(&a) {
                    Some(pos) => pos.2,
                    None => 0,
                })
            };
            out.push(MapAvatar { agent: a, anchor, coarse_z });
            proof {
                assert(out@ =~= want.take(i + 1));
            }
        }
        proof {
            assert(want.take(known.len() as int) =~= want);
        }
        out
    }
    /// Forget the full-object avatar that left the scene under `scoped`: its
    /// agent, the entities to take out of the scene (when it was rendered),
    /// and its body bookkeeping — attachment nodes, head socket, seat and worn
    /// rigged meshes — with the pose inputs counted as moved. `None`, and no
    /// change, when `scoped` is not a known avatar.
    pub fn remove_object(&mut self, scoped: ScopedObjectId) -> (r: Option<(AgentKey, Option<AvatarEntities>)>)
        ensures
            AvatarState::same_names(old(self), final(self)),
            !old(self).by_scoped@.contains_key(scoped.packed()) ==> r is None && AvatarState::same_scene(
                old(self),
                final(self),
            ),
            old(self).by_scoped@.contains_key(scoped.packed()) ==> {
                let agent = old(self).by_scoped@[scoped.packed()];
                &&& r == Some(
                    (
                        agent,
                        if old(self).objects@.contains_key(agent) {
                            Some(old(self).objects@[agent])
                        } else {
                            None
                        },
                    ),
                )
                &&& final(self).by_scoped@ == old(self).by_scoped@.remove(scoped.packed())
                &&& final(self).objects@ == old(self).objects@.remove(agent)
                &&& final(self).attachment_nodes@ == old(self).attachment_nodes@.remove(agent)
                &&& final(self).head_sockets@ == old(self).head_sockets@.remove(agent)
                &&& final(self).seated@ == old(self).seated@.remove(agent)
                &&& final(self).spec_worn_meshes() == old(self).spec_worn_meshes().remove(agent)
                &&& final(self).spec_pose_generation() == next_revision(old(self).spec_pose_generation())
                &&& final(self).origin == old(self).origin
                &&& final(self).coarse@ == old(self).coarse@
                &&& final(self).coarse_region@ == old(self).coarse_region@
                &&& final(self).appearances@ == old(self).appearances@
                &&& final(self).appearance_dirty@ == old(self).appearance_dirty@
                &&& final(self).baked_textures@ == old(self).baked_textures@
                &&& final(self).bake_dirty@ == old(self).bake_dirty@
                &&& final(self).object_parents@ == old(self).object_parents@
                &&& final(self).baked_hides@ == old(self).baked_hides@
            },
    {
        let agent = match self.by_scoped.remove(&scoped.key()) {
            Some(a) => a,
            None => {
                proof {
                    assert(self.by_scoped@ =~= old(self).by_scoped@);
                }
                return None;
            },
        };
        let entities = self.objects.remove(&agent);
        let _nodes = self.attachment_nodes.remove(&agent);
        let _head = self.head_sockets.remove(&agent);
        let _seat = self.seated.remove(&agent);
        let _worn = self.worn_rigged_meshes.remove(&agent);
        self.pose_inputs_generation = bump(self.pose_inputs_generation);
        Some((agent, entities))
    }

    /// Unseat every avatar seated on the object `seat` that was just removed,
    /// and say who they were (each once), so their anchors stop following it.
    pub fn unseat_from_seat(&mut self, seat: ScopedObjectId) -> (riders: Vec<AgentKey>)
        ensures
            riders@.no_duplicates(),
            forall|a: AgentKey| #[trigger] riders@.contains(a) <==> (old(self).seated@.contains_key(a)
                && old(self).seated@[a] == seat),
            forall|a: AgentKey| #[trigger] final(self).seated@.contains_key(a) <==> (old(self).seated@.contains_key(a)
                && old(self).seated@[a] != seat),
            forall|a: AgentKey| #[trigger] final(self).seated@.contains_key(a) ==> final(self).seated@[a]
                == old(self).seated@[a],
            AvatarState::same_names(old(self), final(self)),
            final(self).objects@ == old(self).objects@,
            final(self).by_scoped@ == old(self).by_scoped@,
    {
        let keys = map_keys(&self.seated);
        let mut riders: Vec<AgentKey> = Vec::new();
        for i in 0..keys.len()
            invariant
                keys@.no_duplicates(),
                forall|k: AgentKey| keys@.contains(k) <==> old(self).seated@.contains_key(k),
                riders@.no_duplicates(),
                forall|a: AgentKey| #[trigger] riders@.contains(a) <==> (keys@.take(i as int).contains(a)
                    && old(self).seated@[a] == seat),
                forall|a: AgentKey| #[trigger] self.seated@.contains_key(a) <==> (old(self).seated@.contains_key(a)
                    && !(keys@.take(i as int).contains(a) && old(self).seated@[a] == seat)),
                forall|a: AgentKey| #[trigger] self.seated@.contains_key(a) ==> self.seated@[a] == old(self).seated@[a],
                AvatarState::same_names(old(self), self),
                self.objects@ == old(self).objects@,
                self.by_scoped@ == old(self).by_scoped@,
        {
            let a = keys[i];
            proof {
                assert(keys@.contains(a));
                assert(!keys@.take(i as int).contains(a)) by {
                    if keys@.take(i as int).contains(a) {
                        let y = choose|y: int| 0 <= y < i && keys@.take(i as int)[y] == a;
                        assert(keys@[y] == keys@[i as int]);
                    }
                }
            }
            let on_it = match self.seated.get(&a) {
                Some(s) => *s == seat,
                None => false,
            };
            let ghost before = riders@;
            if on_it {
                let _gone = self.seated.remove(&a);
                riders.push(a);
            }
            proof {
                let t = keys@.take(i + 1);
                assert(t =~= keys@.take(i as int).push(a));
                assert forall|x: AgentKey| #[trigger] t.contains(x) <==> (keys@.take(i as int).contains(x) || x == a) by {
                    if t.contains(x) && x != a {
                        let y = choose|y: int| 0 <= y < t.len() && t[y] == x;
                        assert(keys@.take(i as int)[y] == x);
                    }
                    if keys@.take(i as int).contains(x) {
                        let y = choose|y: int| 0 <= y < i && keys@.take(i as int)[y] == x;
                        assert(t[y] == x);
                    }
                    if x == a {
                        assert(t[i as int] == x);
                    }
                }
                if on_it {
                    assert forall|p: int, q: int| 0 <= p < riders.len() && 0 <= q < riders.len() && p != q implies riders@[p]
                        != riders@[q] by {
                        if p < before.len() && q < before.len() {
                        } else if p < before.len() {
                            assert(before.contains(riders@[p]));
                        } else {
                            assert(before.contains(riders@[q]));
                        }
                    }
                    assert forall|x: AgentKey| #[trigger] riders@.contains(x) <==> (t.contains(x) && old(self).seated@[x]
                        == seat) by {
                        if riders@.contains(x) && x != a {
                            let y = choose|y: int| 0 <= y < riders.len() && riders@[y] == x;
                            assert(before.contains(x));
                        }
                        if t.contains(x) && old(self).seated@[x] == seat && x != a {
                            assert(before.contains(x));
                            let y = choose|y: int| 0 <= y < before.len() && before[y] == x;
                            assert(riders@[y] == x);
                        }
                        if x == a {
                            assert(riders@[before.len() as int] == x);
                        }
                    }
                }
            }
        }
        proof {
            assert(keys@.take(keys.len() as int) =~= keys@);
        }
        riders
    }

    /// The agent whose avatar the object `scoped` hangs off, chasing parent
    /// links up to a known avatar (at most [`MAX_ATTACHMENT_DEPTH`] links);
    /// `None` when the chain does not reach one.
    pub fn wearer_of(&self, scoped: ScopedObjectId) -> (a: Option<AgentKey>)
        ensures
            a == chase(self.by_scoped@, self.object_parents@, scoped.packed(), MAX_ATTACHMENT_DEPTH as nat),
    {
        self.avatar_root_of(scoped.key())
    }

    /// The agent whose avatar the object under packed id `start` hangs off.
    fn avatar_root_of(&self, start: u64) -> (a: Option<AgentKey>)
        ensures
            a == chase(self.by_scoped@, self.object_parents@, start, MAX_ATTACHMENT_DEPTH as nat),
    {
        let mut current = start;
        let mut step: usize = 0;
        while step < MAX_ATTACHMENT_DEPTH
            invariant
                step <= MAX_ATTACHMENT_DEPTH,
                chase(self.by_scoped@, self.object_parents@, start, MAX_ATTACHMENT_DEPTH as nat) == chase(
                    self.by_scoped@,
                    self.object_parents@,
                    current,
                    (MAX_ATTACHMENT_DEPTH - step) as nat,
                ),
            decreases MAX_ATTACHMENT_DEPTH - step,
        {
            if let Some(agent) = self.by_scoped.get(&current) {
                return Some(*agent);
            }
            match self.object_parents.get(&current) {
                Some(parent) => current = *parent,
                None => return None,
            }
            step = step + 1;
        }
        None
    }

    /// The diagnostic form of [`AvatarState::wearer_of`]: the agent when the
    /// chain reaches a known avatar, else the object the walk stopped at (a
    /// root with no recorded parent, or the last hop at the depth cap) and how
    /// many links it followed.
    pub fn avatar_root_walk(&self, scoped: ScopedObjectId) -> (r: Result<AgentKey, (ScopedObjectId, usize)>)
        ensures
            r == match root_walk(self.by_scoped@, self.object_parents@, scoped.packed(), 0, MAX_ATTACHMENT_DEPTH as nat) {
                Ok(agent) => Ok::<AgentKey, (ScopedObjectId, usize)>(agent),
                Err((k, hops)) => Err((ScopedObjectId::unpacked(k), hops as usize)),
            },
    {
        let mut current = scoped.key();
        let mut hops: usize = 0;
        while hops < MAX_ATTACHMENT_DEPTH
            invariant
                hops <= MAX_ATTACHMENT_DEPTH,
                root_walk(self.by_scoped@, self.object_parents@, scoped.packed(), 0, MAX_ATTACHMENT_DEPTH as nat)
                    == root_walk(
                    self.by_scoped@,
                    self.object_parents@,
                    current,
                    hops as nat,
                    (MAX_ATTACHMENT_DEPTH - hops) as nat,
                ),
            decreases MAX_ATTACHMENT_DEPTH - hops,
        {
            if let Some(agent) = self.by_scoped.get(&current) {
                return Ok(*agent);
            }
            match self.object_parents.get(&current) {
                Some(parent) => current = *parent,
                None => return Err((ScopedObjectId::from_key(current), hops)),
            }
            hops = hops + 1;
        }
        Err((ScopedObjectId::from_key(current), MAX_ATTACHMENT_DEPTH))
    }

    /// Record the parent of the object `scoped` and say whether its texture
    /// entry still has to be scanned for baked-slot sentinels (the first time
    /// a non-root object is seen). A root object (`parent` is `None`) is
    /// ignored.
    pub fn track_object(&mut self, scoped: ScopedObjectId, parent: Option<ScopedObjectId>) -> (scan: bool)
        ensures
            AvatarState::same_names(old(self), final(self)),
            parent is None ==> !scan && AvatarState::same_scene(old(self), final(self)),
            parent matches Some(p) ==> {
                &&& final(self).object_parents@ == old(self).object_parents@.insert(scoped.packed(), p.packed())
                &&& scan == !old(self).spec_scanned().contains(scoped.packed())
                &&& final(self).spec_scanned() == old(self).spec_scanned().insert(scoped.packed())
                &&& final(self).baked_hides@ == old(self).baked_hides@
                &&& final(self).by_scoped@ == old(self).by_scoped@
            },
    {
        let p = match parent {
            Some(p) => p,
            None => return false,
        };
        let k = scoped.key();
        let _prior = self.object_parents.insert(k, p.key());
        self.scanned_objects.insert(k)
    }

    /// Record the baked slots the object `scoped`'s texture entry replaces —
    /// sorted, each once; nothing is recorded for an ordinary object (no
    /// slots).
    pub fn note_baked_slots(&mut self, scoped: ScopedObjectId, slots: Vec<usize>)
        ensures
            AvatarState::same_names(old(self), final(self)),
            slots@.len() == 0 ==> final(self).baked_hides@ == old(self).baked_hides@,
            slots@.len() > 0 ==> {
                &&& final(self).baked_hides@.dom() == old(self).baked_hides@.dom().insert(scoped.packed())
                &&& forall|k: u64| k != scoped.packed() && #[trigger] old(self).baked_hides@.contains_key(k)
                    ==> final(self).baked_hides@[k] == old(self).baked_hides@[k]
                &&& sorted_unique(final(self).baked_hides@[scoped.packed()]@)
                &&& forall|s: usize| #[trigger] final(self).baked_hides@[scoped.packed()]@.contains(s) <==> slots@.contains(s)
            },
            final(self).object_parents@ == old(self).object_parents@,
            final(self).by_scoped@ == old(self).by_scoped@,
    {
        if slots.len() == 0 {
            return;
        }
        let sorted = sort_unique(&slots);
        let _prior = self.baked_hides.insert(scoped.key(), sorted);
        proof {
            assert(self.baked_hides@.dom() =~= old(self).baked_hides@.dom().insert(scoped.packed()));
        }
    }

    /// Forget a departed object's attachment bookkeeping.
    pub fn forget_object(&mut self, scoped: ScopedObjectId)
        ensures
            AvatarState::same_names(old(self), final(self)),
            final(self).object_parents@ == old(self).object_parents@.remove(scoped.packed()),
            final(self).baked_hides@ == old(self).baked_hides@.remove(scoped.packed()),
            final(self).spec_scanned() == old(self).spec_scanned().remove(scoped.packed()),
            final(self).by_scoped@ == old(self).by_scoped@,
    {
        let k = scoped.key();
        let _parent = self.object_parents.remove(&k);
        let _hides = self.baked_hides.remove(&k);
        let _scanned = self.scanned_objects.remove(&k);
    }
    /// The baked slots to hide for each avatar: every object whose texture
    /// entry replaces baked slots is attributed to the avatar its chain
    /// reaches, and its slots are unioned in.
    pub fn hidden_slots_per_agent(&self) -> (r: HashMap<AgentKey, HashSet<usize>>)
        ensures
            forall|a: AgentKey| #[trigger] r@.contains_key(a) <==> exists|k: u64| #[trigger] self.hides_for(k, a),
            forall|a: AgentKey, s: usize| #[trigger] r@.contains_key(a) ==> (#[trigger] r@[a]@.contains(s) <==> exists|k: u64|
                #[trigger] self.hides_for(k, a) && self.baked_hides@[k]@.contains(s)),
    {
        let keys = map_keys(&self.baked_hides);
        let mut hidden: HashMap<AgentKey, HashSet<usize>> = HashMap::new();
        for i in 0..keys.len()
            invariant
                keys@.no_duplicates(),
                forall|k: u64| keys@.contains(k) <==> self.baked_hides@.contains_key(k),
                forall|a: AgentKey| #[trigger] hidden@.contains_key(a) <==> exists|j: int| 0 <= j < i && #[trigger] self.hides_for(
                    keys@[j],
                    a,
                ),
                forall|a: AgentKey, s: usize| #[trigger] hidden@.contains_key(a) ==> (#[trigger] hidden@[a]@.contains(s)
                    <==> exists|j: int| 0 <= j < i && #[trigger] self.hides_for(keys@[j], a) && self.baked_hides@[keys@[j]]@.contains(s)),
        {
            let k = keys[i];
            assert(keys@.contains(k));
            match self.avatar_root_of(k) {
                Some(agent) => {
                    let slots = self.baked_hides.get(&k).unwrap();
                    let ghost before = hidden@;
                    let mut set = match hidden.remove(&agent) {
                        Some(s) => s,
                        None => HashSet::new(),
                    };
                    let ghost start = set@;
                    for t in 0..slots.len()
                        invariant
                            forall|y: usize| #[trigger] set@.contains(y) <==> (start.contains(y) || slots@.take(t as int).contains(y)),
                    {
                        let _new = set.insert(slots[t]);
                        proof {
                            let tk = slots@.take(t + 1);
                            assert(tk =~= slots@.take(t as int).push(slots@[t as int]));
                            assert forall|y: usize| #[trigger] set@.contains(y) <==> (start.contains(y) || tk.contains(y)) by {
                                if tk.contains(y) && y != slots@[t as int] {
                                    let z = choose|z: int| 0 <= z < tk.len() && tk[z] == y;
                                    assert(slots@.take(t as int)[z] == y);
                                }
                                if slots@.take(t as int).contains(y) {
                                    let z = choose|z: int| 0 <= z < t && slots@.take(t as int)[z] == y;
                                    assert(tk[z] == y);
                                }
                                if y == slots@[t as int] {
                                    assert(tk[t as int] == y);
                                }
                            }
                        }
                    }
                    proof {
                        assert(slots@.take(slots.len() as int) =~= slots@);
                    }
                    hidden.insert(agent, set);
                    proof {
                        assert(self.hides_for(k, agent));
                        assert forall|a: AgentKey| #[trigger] hidden@.contains_key(a) <==> exists|j: int| 0 <= j < i + 1
                            && #[trigger] self.hides_for(keys@[j], a) by {
                            if a == agent {
                                assert(self.hides_for(keys@[i as int], a));
                            } else if exists|j: int| 0 <= j < i + 1 && #[trigger] self.hides_for(keys@[j], a) {
                                let j = choose|j: int| 0 <= j < i + 1 && #[trigger] self.hides_for(keys@[j], a);
                                assert(j != i);
                                assert(before.contains_key(a));
                            } else if hidden@.contains_key(a) {
                                assert(before.contains_key(a));
                            }
                        }
                        assert forall|a: AgentKey, s: usize| #[trigger] hidden@.contains_key(a) implies (#[trigger] hidden@[a]@.contains(s)
                            <==> exists|j: int| 0 <= j < i + 1 && #[trigger] self.hides_for(keys@[j], a)
                            && self.baked_hides@[keys@[j]]@.contains(s)) by {
                            if a == agent {
                                if hidden@[a]@.contains(s) {
                                    if start.contains(s) {
                                        assert(before.contains_key(a));
                                        let j = choose|j: int| 0 <= j < i && #[trigger] self.hides_for(keys@[j], a)
                                            && self.baked_hides@[keys@[j]]@.contains(s);
                                    } else {
                                        assert(slots@.contains(s));
                                        assert(self.hides_for(keys@[i as int], a));
                                    }
                                }
                                if exists|j: int| 0 <= j < i + 1 && #[trigger] self.hides_for(keys@[j], a)
                                    && self.baked_hides@[keys@[j]]@.contains(s) {
                                    let j = choose|j: int| 0 <= j < i + 1 && #[trigger] self.hides_for(keys@[j], a)
                                        && self.baked_hides@[keys@[j]]@.contains(s);
                                    if j == i {
                                        assert(slots@.contains(s));
                                    } else {
                                        assert(before.contains_key(a));
                                        assert(start.contains(s));
                                    }
                                }
                            } else {
                                assert(before.contains_key(a));
                                if exists|j: int| 0 <= j < i + 1 && #[trigger] self.hides_for(keys@[j], a)
                                    && self.baked_hides@[keys@[j]]@.contains(s) {
                                    let j = choose|j: int| 0 <= j < i + 1 && #[trigger] self.hides_for(keys@[j], a)
                                        && self.baked_hides@[keys@[j]]@.contains(s);
                                    assert(j != i);
                                }
                            }
                        }
                    }
                },
                None => {
                    proof {
                        assert forall|a: AgentKey| !#[trigger] self.hides_for(k, a) by {}
                    }
                },
            }
        }
        proof {
            assert forall|a: AgentKey| #[trigger] hidden@.contains_key(a) <==> exists|k: u64| #[trigger] self.hides_for(k, a) by {
                if exists|k: u64| #[trigger] self.hides_for(k, a) {
                    let k = choose|k: u64| #[trigger] self.hides_for(k, a);
                    assert(keys@.contains(k));
                    let j = choose|j: int| 0 <= j < keys.len() && keys@[j] == k;
                    assert(self.hides_for(keys@[j], a));
                }
            }
            assert forall|a: AgentKey, s: usize| #[trigger] hidden@.contains_key(a) implies (#[trigger] hidden@[a]@.contains(s)
                <==> exists|k: u64| #[trigger] self.hides_for(k, a) && self.baked_hides@[k]@.contains(s)) by {
                if exists|k: u64| #[trigger] self.hides_for(k, a) && self.baked_hides@[k]@.contains(s) {
                    let k = choose|k: u64| #[trigger] self.hides_for(k, a) && self.baked_hides@[k]@.contains(s);
                    assert(keys@.contains(k));
                    let j = choose|j: int| 0 <= j < keys.len() && keys@[j] == k;
                    assert(self.hides_for(keys@[j], a));
                }
            }
        }
        hidden
    }
    /// Take every other avatar out of the scene — the purge a distant
    /// teleport needs — and forget their per-agent state; the agent's `own`
    /// avatar is kept. Returns the entities to take out (each other agent's
    /// full-object entities, then its coarse dot's). Names, aliases and name
    /// requests are knowledge about people, not the scene, and are kept; the
    /// scoped-id bookkeeping is dropped wholesale and the scene anchor with it.
    pub fn purge(&mut self, own: Option<AgentKey>) -> (despawn: Vec<AvatarEntities>)
        ensures
            exists|ks: Seq<AgentKey>| #[trigger] lists_exactly(
                ks,
                old(self).objects@.dom().union(old(self).coarse@.dom()).difference(own_set(own)),
            ) && despawn@ == purge_despawns(old(self).objects@, old(self).coarse@, ks),
            final(self).objects@ == old(self).objects@.restrict(own_set(own)),
            final(self).coarse@ == old(self).coarse@.restrict(own_set(own)),
            final(self).coarse_region@ == old(self).coarse_region@.restrict(own_set(own)),
            final(self).coarse_pos@ == old(self).coarse_pos@.restrict(own_set(own)),
            final(self).attachment_nodes@ == old(self).attachment_nodes@.restrict(own_set(own)),
            final(self).head_sockets@ == old(self).head_sockets@.restrict(own_set(own)),
            final(self).spec_titles() == old(self).spec_titles().restrict(own_set(own)),
            final(self).appearances@ == old(self).appearances@.restrict(own_set(own)),
            final(self).appearance_dirty@ == old(self).appearance_dirty@.intersect(own_set(own)),
            final(self).spec_worn_meshes() == old(self).spec_worn_meshes().restrict(own_set(own)),
            final(self).skirt_visible@ == old(self).skirt_visible@.restrict(own_set(own)),
            final(self).baked_textures@ == old(self).baked_textures@.restrict(own_set(own)),
            final(self).invisible_regions@ == old(self).invisible_regions@.restrict(own_set(own)),
            final(self).baked_cof_version@ == old(self).baked_cof_version@.restrict(own_set(own)),
            final(self).bake_dirty@ == old(self).bake_dirty@.intersect(own_set(own)),
            final(self).ever_full_object@ == old(self).ever_full_object@.intersect(own_set(own)),
            final(self).seated@ == old(self).seated@.restrict(own_set(own)),
            final(self).by_scoped@.len() == 0,
            final(self).object_parents@.len() == 0,
            final(self).baked_hides@.len() == 0,
            final(self).spec_scanned().len() == 0,
            final(self).origin is None,
            final(self).names@ == old(self).names@,
            final(self).spec_aliases() == old(self).spec_aliases(),
            final(self).spec_names_revision() == old(self).spec_names_revision(),
            final(self).spec_requested() == old(self).spec_requested(),
            final(self).pending_name_requests@ == old(self).pending_name_requests@,
            final(self).spec_pose_generation() == old(self).spec_pose_generation(),
    {
        let ghost objs = self.objects@;
        let ghost dots = self.coarse@;
        let ghost others = objs.dom().union(dots.dom()).difference(own_set(own));
        let okeys = map_keys(&self.objects);
        let mut out: Vec<AvatarEntities> = Vec::new();
        let ghost mut ks: Seq<AgentKey> = Seq::empty();
        for i in 0..okeys.len()
            invariant
                objs == old(self).objects@,
                dots == old(self).coarse@,
                okeys@.no_duplicates(),
                forall|k: AgentKey| okeys@.contains(k) <==> objs.contains_key(k),
                ks.no_duplicates(),
                forall|a: AgentKey| #[trigger] ks.contains(a) <==> (okeys@.take(i as int).contains(a) && own != Some(a)),
                forall|a: AgentKey| #[trigger] self.objects@.contains_key(a) <==> (objs.contains_key(a) && !ks.contains(a)),
                forall|a: AgentKey| #[trigger] self.objects@.contains_key(a) ==> self.objects@[a] == objs[a],
                forall|a: AgentKey| #[trigger] self.coarse@.contains_key(a) <==> (dots.contains_key(a) && !ks.contains(a)),
                forall|a: AgentKey| #[trigger] self.coarse@.contains_key(a) ==> self.coarse@[a] == dots[a],
                out@ == purge_despawns(objs, dots, ks),
                self.coarse_region@ == old(self).coarse_region@,
                self.coarse_pos@ == old(self).coarse_pos@,
                self.attachment_nodes@ == old(self).attachment_nodes@,
                self.head_sockets@ == old(self).head_sockets@,
                self.titles@ == old(self).titles@,
                self.appearances@ == old(self).appearances@,
                self.appearance_dirty@ == old(self).appearance_dirty@,
                self.worn_rigged_meshes@ == old(self).worn_rigged_meshes@,
                self.skirt_visible@ == old(self).skirt_visible@,
                self.baked_textures@ == old(self).baked_textures@,
                self.invisible_regions@ == old(self).invisible_regions@,
                self.baked_cof_version@ == old(self).baked_cof_version@,
                self.bake_dirty@ == old(self).bake_dirty@,
                self.ever_full_object@ == old(self).ever_full_object@,
                self.seated@ == old(self).seated@,
                AvatarState::same_names(old(self), self),
                self.pose_inputs_generation == old(self).pose_inputs_generation,
        {
            let a = okeys[i];
            proof {
                assert(okeys@.contains(a));
                assert(!okeys@.take(i as int).contains(a)) by {
                    if okeys@.take(i as int).contains(a) {
                        let y = choose|y: int| 0 <= y < i && okeys@.take(i as int)[y] == a;
                        assert(okeys@[y] == okeys@[i as int]);
                    }
                }
                assert(!ks.contains(a));
            }
            let mine = match own {
                Some(me) => me == a,
                None => false,
            };
            let ghost before = ks;
            if !mine {
                let o = self.objects.remove(&a).unwrap();
                out.push(o);
                match self.coarse.remove(&a) {
                    Some(c) => out.push(c),
                    None => {},
                }
                proof {
                    ks = ks.push(a);
                    assert(ks.drop_last() =~= before);
                    assert(out@ =~= purge_despawns(objs, dots, ks));
                    assert forall|p: int, q: int| 0 <= p < ks.len() && 0 <= q < ks.len() && p != q implies ks[p] != ks[q] by {
                        if p < before.len() && q < before.len() {
                        } else if p < before.len() {
                            assert(before.contains(ks[p]));
                        } else {
                            assert(before.contains(ks[q]));
                        }
                    }
                }
            }
            proof {
                let t = okeys@.take(i + 1);
                assert(t =~= okeys@.take(i as int).push(a));
                assert forall|x: AgentKey| #[trigger] t.contains(x) <==> (okeys@.take(i as int).contains(x) || x == a) by {
                    if t.contains(x) && x != a {
                        let y = choose|y: int| 0 <= y < t.len() && t[y] == x;
                        assert(okeys@.take(i as int)[y] == x);
                    }
                    if okeys@.take(i as int).contains(x) {
                        let y = choose|y: int| 0 <= y < i && okeys@.take(i as int)[y] == x;
                        assert(t[y] == x);
                    }
                    if x == a {
                        assert(t[i as int] == x);
                    }
                }
                assert forall|x: AgentKey| #[trigger] ks.contains(x) <==> (before.contains(x) || (x == a && !mine)) by {
                    if ks.contains(x) && !before.contains(x) {
                        let y = choose|y: int| 0 <= y < ks.len() && ks[y] == x;
                        if y < before.len() {
                            assert(before[y] == x);
                        }
                    }
                    if before.contains(x) {
                        let y = choose|y: int| 0 <= y < before.len() && before[y] == x;
                        assert(ks[y] == x);
                    }
                    if x == a && !mine {
                        assert(ks[before.len() as int] == x);
                    }
                }
            }
        }
        proof {
            assert(okeys@.take(okeys.len() as int) =~= okeys@);
        }
        let ghost ks1 = ks;
        let ckeys = map_keys(&self.coarse);
        for j in 0..ckeys.len()
            invariant
                objs == old(self).objects@,
                dots == old(self).coarse@,
                ckeys@.no_duplicates(),
                forall|k: AgentKey| ckeys@.contains(k) <==> (dots.contains_key(k) && !ks1.contains(k)),
                forall|a: AgentKey| #[trigger] ks1.contains(a) <==> (objs.contains_key(a) && own != Some(a)),
                ks.no_duplicates(),
                forall|a: AgentKey| #[trigger] ks.contains(a) <==> (ks1.contains(a) || (ckeys@.take(j as int).contains(a)
                    && own != Some(a))),
                forall|a: AgentKey| #[trigger] self.objects@.contains_key(a) <==> (objs.contains_key(a) && !ks1.contains(a)),
                forall|a: AgentKey| #[trigger] self.objects@.contains_key(a) ==> self.objects@[a] == objs[a],
                forall|a: AgentKey| #[trigger] self.coarse@.contains_key(a) <==> (dots.contains_key(a) && !ks.contains(a)),
                forall|a: AgentKey| #[trigger] self.coarse@.contains_key(a) ==> self.coarse@[a] == dots[a],
                out@ == purge_despawns(objs, dots, ks),
                self.coarse_region@ == old(self).coarse_region@,
                self.coarse_pos@ == old(self).coarse_pos@,
                self.attachment_nodes@ == old(self).attachment_nodes@,
                self.head_sockets@ == old(self).head_sockets@,
                self.titles@ == old(self).titles@,
                self.appearances@ == old(self).appearances@,
                self.appearance_dirty@ == old(self).appearance_dirty@,
                self.worn_rigged_meshes@ == old(self).worn_rigged_meshes@,
                self.skirt_visible@ == old(self).skirt_visible@,
                self.baked_textures@ == old(self).baked_textures@,
                self.invisible_regions@ == old(self).invisible_regions@,
                self.baked_cof_version@ == old(self).baked_cof_version@,
                self.bake_dirty@ == old(self).bake_dirty@,
                self.ever_full_object@ == old(self).ever_full_object@,
                self.seated@ == old(self).seated@,
                AvatarState::same_names(old(self), self),
                self.pose_inputs_generation == old(self).pose_inputs_generation,
        {
            let a = ckeys[j];
            proof {
                assert(ckeys@.contains(a));
                assert(!ckeys@.take(j as int).contains(a)) by {
                    if ckeys@.take(j as int).contains(a) {
                        let y = choose|y: int| 0 <= y < j && ckeys@.take(j as int)[y] == a;
                        assert(ckeys@[y] == ckeys@[j as int]);
                    }
                }
                assert(!ks.contains(a));
            }
            let mine = match own {
                Some(me) => me == a,
                None => false,
            };
            let ghost before = ks;
            if !mine {
                let c = self.coarse.remove(&a).unwrap();
                out.push(c);
                proof {
                    ks = ks.push(a);
                    assert(ks.drop_last() =~= before);
                    assert(!objs.contains_key(a));
                    assert(out@ =~= purge_despawns(objs, dots, ks));
                    assert forall|p: int, q: int| 0 <= p < ks.len() && 0 <= q < ks.len() && p != q implies ks[p] != ks[q] by {
                        if p < before.len() && q < before.len() {
                        } else if p < before.len() {
                            assert(before.contains(ks[p]));
                        } else {
                            assert(before.contains(ks[q]));
                        }
                    }
                }
            }
            proof {
                let t = ckeys@.take(j + 1);
                assert(t =~= ckeys@.take(j as int).push(a));
                assert forall|x: AgentKey| #[trigger] t.contains(x) <==> (ckeys@.take(j as int).contains(x) || x == a) by {
                    if t.contains(x) && x != a {
                        let y = choose|y: int| 0 <= y < t.len() && t[y] == x;
                        assert(ckeys@.take(j as int)[y] == x);
                    }
                    if ckeys@.take(j as int).contains(x) {
                        let y = choose|y: int| 0 <= y < j && ckeys@.take(j as int)[y] == x;
                        assert(t[y] == x);
                    }
                    if x == a {
                        assert(t[j as int] == x);
                    }
                }
                assert forall|x: AgentKey| #[trigger] ks.contains(x) <==> (before.contains(x) || (x == a && !mine)) by {
                    if ks.contains(x) && !before.contains(x) {
                        let y = choose|y: int| 0 <= y < ks.len() && ks[y] == x;
                        if y < before.len() {
                            assert(before[y] == x);
                        }
                    }
                    if before.contains(x) {
                        let y = choose|y: int| 0 <= y < before.len() && before[y] == x;
                        assert(ks[y] == x);
                    }
                    if x == a && !mine {
                        assert(ks[before.len() as int] == x);
                    }
                }
            }
        }
        proof {
            assert(ckeys@.take(ckeys.len() as int) =~= ckeys@);
            assert forall|a: AgentKey| #[trigger] ks.contains(a) <==> others.contains(a) by {
                if others.contains(a) && !objs.contains_key(a) {
                    assert(ckeys@.contains(a));
                }
            }
            assert(self.objects@ =~= objs.restrict(own_set(own)));
            assert(self.coarse@ =~= dots.restrict(own_set(own)));
            assert(lists_exactly(ks, others));
        }
        keep_own_entry(&mut self.coarse_region, own);
        keep_own_entry(&mut self.coarse_pos, own);
        keep_own_entry(&mut self.attachment_nodes, own);
        keep_own_entry(&mut self.head_sockets, own);
        keep_own_entry(&mut self.titles, own);
        keep_own_entry(&mut self.appearances, own);
        keep_own_member(&mut self.appearance_dirty, own);
        keep_own_entry(&mut self.worn_rigged_meshes, own);
        keep_own_entry(&mut self.skirt_visible, own);
        keep_own_entry(&mut self.baked_textures, own);
        keep_own_entry(&mut self.invisible_regions, own);
        keep_own_entry(&mut self.baked_cof_version, own);
        keep_own_member(&mut self.bake_dirty, own);
        keep_own_member(&mut self.ever_full_object, own);
        keep_own_entry(&mut self.seated, own);
        self.by_scoped.clear();
        self.object_parents.clear();
        self.baked_hides.clear();
        self.scanned_objects.clear();
        self.origin = None;
        out
    }
    /// Record a name learned from traffic (an IM's sender, an invitation's
    /// inviter): fills the legacy name only when none is known yet. An empty
    /// name changes nothing.
    pub fn note_legacy_name(&mut self, agent: AgentKey, name: &str)
        ensures
            AvatarState::same_scene(old(self), final(self)),
            name@.len() == 0 ==> AvatarState::same_names(old(self), final(self)),
            name@.len() > 0 ==> {
                let fresh = old(self).fresh_record(agent);
                &&& final(self).names@.dom() == old(self).names@.dom().insert(agent)
                &&& forall|a: AgentKey| a != agent && #[trigger] old(self).names@.contains_key(a)
                    ==> final(self).names@[a] == old(self).names@[a]
                &&& final(self).names@[agent]@ == (NameView {
                    legacy: if fresh.legacy is Some {
                        fresh.legacy
                    } else {
                        Some(name@)
                    },
                    ..fresh
                })
                &&& final(self).spec_names_revision() == next_revision(old(self).spec_names_revision())
                &&& final(self).spec_aliases() == old(self).spec_aliases()
                &&& final(self).spec_titles() == old(self).spec_titles()
                &&& final(self).spec_requested() == old(self).spec_requested()
                &&& final(self).pending_name_requests@ == old(self).pending_name_requests@
            },
    {
        if name.unicode_len() == 0 {
            return;
        }
        let mut record = self.take_record(agent);
        if record.legacy.is_none() {
            record.legacy = Some(name.to_owned());
        }
        self.names.insert(agent, record);
        proof {
            assert(self.names@.dom() =~= old(self).names@.dom().insert(agent));
        }
    }
}

/// The legacy name an avatar object's first and last name values make, when
/// non-empty: `"First Last"`, or the first name alone when the last name is
/// missing, empty or `Resident` in any case.
pub open spec fn seeded_legacy(first: Option<String>, last: Option<String>) -> Option<Seq<char>> {
    match first {
        None => None,
        Some(f) => {
            let text = match last {
                Some(l) => if l@.len() > 0 && !eq_ignore_ascii_case(l@, "Resident"@) {
                    f@ + seq![' '] + l@
                } else {
                    f@
                },
                None => f@,
            };
            if text.len() > 0 {
                Some(text)
            } else {
                None
            }
        },
    }
}

/// The legacy name seeded from a first and a last name is the first name, one
/// space and the last name — unless the last name is empty or `Resident` (in
/// any case), when it is the first name alone; no first name seeds nothing,
/// and neither does an empty first name standing alone.
pub proof fn law_a_legacy_name_is_first_space_last(first: String, last: String)
    ensures
        last@.len() > 0 && !eq_ignore_ascii_case(last@, "Resident"@) ==> {
            let t = seeded_legacy(Some(first), Some(last))->0;
            &&& seeded_legacy(Some(first), Some(last)) is Some
            &&& t.len() == first@.len() + 1 + last@.len()
            &&& t.subrange(0, first@.len() as int) == first@
            &&& t[first@.len() as int] == ' '
            &&& t.subrange(first@.len() + 1int, t.len() as int) == last@
        },
        !(last@.len() > 0 && !eq_ignore_ascii_case(last@, "Resident"@)) ==> seeded_legacy(Some(first), Some(last))
            == if first@.len() > 0 {
            Some(first@)
        } else {
            None
        },
        seeded_legacy(Some(first), None) == if first@.len() > 0 {
            Some(first@)
        } else {
            None
        },
        seeded_legacy(None, Some(last)) is None,
{
    if last@.len() > 0 && !eq_ignore_ascii_case(last@, "Resident"@) {
        let t = first@ + seq![' '] + last@;
        assert(t.subrange(0, first@.len() as int) =~= first@);
        assert(t.subrange(first@.len() + 1int, t.len() as int) =~= last@);
    }
}

/// Whether `ks` lists exactly the members of `s`, each once.
pub open spec fn lists_exactly(ks: Seq<AgentKey>, s: Set<AgentKey>) -> bool {
    &&& ks.no_duplicates()
    &&& forall|a: AgentKey| ks.contains(a) <==> s.contains(a)
}

/// The agent a chase of at most `steps` parent links from the object under
/// `k` reaches: the first object on the way that is a known avatar.
pub open spec fn chase(by_scoped: Map<u64, AgentKey>, parents: Map<u64, u64>, k: u64, steps: nat) -> Option<AgentKey>
    decreases steps,
{
    if steps == 0 {
        None
    } else if by_scoped.contains_key(k) {
        Some(by_scoped[k])
    } else if parents.contains_key(k) {
        chase(by_scoped, parents, parents[k], (steps - 1) as nat)
    } else {
        None
    }
}

/// Where a chase from the object under `k`, `hops` links in with `left` links
/// to go, ends: the agent when it reaches a known avatar, else the object it
/// stopped at and the links followed.
pub open spec fn root_walk(
    by_scoped: Map<u64, AgentKey>,
    parents: Map<u64, u64>,
    k: u64,
    hops: nat,
    left: nat,
) -> Result<AgentKey, (u64, nat)>
    decreases left,
{
    if left == 0 {
        Err((k, hops))
    } else if by_scoped.contains_key(k) {
        Ok(by_scoped[k])
    } else if parents.contains_key(k) {
        root_walk(by_scoped, parents, parents[k], hops + 1, (left - 1) as nat)
    } else {
        Err((k, hops))
    }
}

/// Whether `s` is strictly increasing (so sorted, each value once).
pub open spec fn sorted_unique(s: Seq<usize>) -> bool {
    forall|i: int, j: int| 0 <= i < j < s.len() ==> s[i] < s[j]
}

/// The values of `v`, sorted, each once.
pub fn sort_unique(v: &Vec<usize>) -> (r: Vec<usize>)
    ensures
        sorted_unique(r@),
        forall|x: usize| #[trigger] r@.contains(x) <==> v@.contains(x),
{
    let mut r: Vec<usize> = Vec::new();
    for i in 0..v.len()
        invariant
            sorted_unique(r@),
            forall|x: usize| #[trigger] r@.contains(x) <==> v@.take(i as int).contains(x),
    {
        let x = v[i];
        let mut p: usize = 0;
        while p < r.len() && r[p] < x
            invariant
                p <= r.len(),
                forall|a: int| 0 <= a < p ==> r@[a] < x,
            decreases r.len() - p,
        {
            p = p + 1;
        }
        let ghost before = r@;
        if p < r.len() && r[p] == x {
        } else {
            r.insert(p, x);
            proof {
                assert forall|a: int, b: int| 0 <= a < b < r@.len() implies r@[a] < r@[b] by {
                    if b < p {
                    } else if b == p {
                    } else if a < p {
                        assert(r@[b] == before[b - 1]);
                    } else if a == p {
                        assert(r@[b] == before[b - 1]);
                        if b - 1 > p {
                            assert(before[p as int] < before[b - 1]);
                        }
                    } else {
                        assert(r@[a] == before[a - 1]);
                        assert(r@[b] == before[b - 1]);
                    }
                }
            }
        }
        proof {
            let t = v@.take(i + 1);
            assert(t =~= v@.take(i as int).push(x));
            assert forall|y: usize| #[trigger] r@.contains(y) <==> t.contains(y) by {
                if t.contains(y) {
                    let z = choose|z: int| 0 <= z < t.len() && t[z] == y;
                    if z < i {
                        assert(v@.take(i as int)[z] == y);
                        assert(before.contains(y));
                        let w = choose|w: int| 0 <= w < before.len() && before[w] == y;
                        if r@.len() == before.len() {
                            assert(r@[w] == y);
                        } else if w < p {
                            assert(r@[w] == y);
                        } else {
                            assert(r@[w + 1] == y);
                        }
                    } else {
                        if r@.len() == before.len() {
                            assert(r@[p as int] == y);
                        } else {
                            assert(r@[p as int] == y);
                        }
                    }
                }
                if r@.contains(y) {
                    let w = choose|w: int| 0 <= w < r@.len() && r@[w] == y;
                    if r@.len() == before.len() {
                        assert(before.contains(y));
                        let z = choose|z: int| 0 <= z < i && v@.take(i as int)[z] == y;
                        assert(t[z] == y);
                    } else if w == p {
                        assert(t[i as int] == y);
                    } else {
                        let w0 = if w < p { w } else { w - 1 };
                        assert(before[w0] == y);
                        assert(before.contains(y));
                        let z = choose|z: int| 0 <= z < i && v@.take(i as int)[z] == y;
                        assert(t[z] == y);
                    }
                }
            }
        }
    }
    proof {
        assert(v@.take(v.len() as int) =~= v@);
    }
    r
}

/// The agents a purge keeps: the own agent, when known.
pub open spec fn own_set(own: Option<AgentKey>) -> Set<AgentKey> {
    match own {
        Some(a) => set![a],
        None => Set::empty(),
    }
}

/// What leaves the scene with the agent `a`: its full-object entities, then
/// its coarse dot's.
pub open spec fn entities_of(
    objects: Map<AgentKey, AvatarEntities>,
    coarse: Map<AgentKey, AvatarEntities>,
    a: AgentKey,
) -> Seq<AvatarEntities> {
    (if objects.contains_key(a) {
        seq![objects[a]]
    } else {
        Seq::empty()
    }) + (if coarse.contains_key(a) {
        seq![coarse[a]]
    } else {
        Seq::empty()
    })
}

/// What leaves the scene with the agents `ks`, in order.
pub open spec fn purge_despawns(
    objects: Map<AgentKey, AvatarEntities>,
    coarse: Map<AgentKey, AvatarEntities>,
    ks: Seq<AgentKey>,
) -> Seq<AvatarEntities>
    decreases ks.len(),
{
    if ks.len() == 0 {
        Seq::empty()
    } else {
        purge_despawns(objects, coarse, ks.drop_last()) + entities_of(objects, coarse, ks.last())
    }
}

/// Keep only the own agent's entry of a per-agent map.
fn keep_own_entry<V>(m: &mut HashMap<AgentKey, V>, own: Option<AgentKey>)
    ensures
        final(m)@ == old(m)@.restrict(own_set(own)),
{
    match own {
        Some(a) => {
            let kept = m.remove(&a);
            m.clear();
            match kept {
                Some(v) => {
                    let _none = m.insert(a, v);
                },
                None => {},
            }
        },
        None => m.clear(),
    }
    proof {
        assert(m@ =~= old(m)@.restrict(own_set(own)));
    }
}

/// Keep only the own agent in a per-agent set.
fn keep_own_member(s: &mut HashSet<AgentKey>, own: Option<AgentKey>)
    ensures
        final(s)@ == old(s)@.intersect(own_set(own)),
{
    match own {
        Some(a) => {
            let had = s.contains(&a);
            s.clear();
            if had {
                let _new = s.insert(a);
            }
        },
        None => s.clear(),
    }
    proof {
        assert(s@ =~= old(s)@.intersect(own_set(own)));
    }
}

impl Default for AvatarState {
    /// No avatars, no names, nothing tracked.
    fn default() -> (s: AvatarState)
        ensures
            s.origin is None,
            s.objects@.len() == 0,
            s.coarse@.len() == 0,
            s.names@.len() == 0,
            s.spec_names_revision() == 0,
    {
        AvatarState::new()
    }
}

} // verus!

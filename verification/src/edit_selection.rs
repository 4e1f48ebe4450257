//! What the build tool has selected and how it is editing it: the selection
//! set with its per-object face sets, the active tool, and the material / PBR
//! channel the texture tab shows.

use crate::ids::{Entity, ObjectKey, ScopedObjectId, Uuid};
use std::collections::HashSet;
use vstd::prelude::*;

verus! {

broadcast use vstd::std_specs::hash::group_hash_axioms;

/// The face a whole-object selection counts as last touched.
pub const FIRST_FACE: u8 = 0;

/// The extended properties the simulator returns for a selected object, as
/// far as the selection reads and echoes them.
#[derive(Debug)]
pub struct ObjectProperties {
    /// The object's grid-wide key — what the reply is matched back by.
    pub object_id: ObjectKey,
    /// The object's name.
    pub name: String,
    /// The object's description.
    pub description: String,
}

/// What a properties reply says.
pub struct PropertiesView {
    /// The object's key.
    pub object_id: ObjectKey,
    /// The name.
    pub name: Seq<char>,
    /// The description.
    pub description: Seq<char>,
}

impl View for ObjectProperties {
    type V = PropertiesView;

    open spec fn view(&self) -> PropertiesView {
        PropertiesView { object_id: self.object_id, name: self.name@, description: self.description@ }
    }
}

/// One selected object.
#[derive(Debug)]
pub struct SelectedNode {
    /// The object's region-scoped id — what select / deselect / update
    /// commands address.
    pub scoped: ScopedObjectId,
    /// The object's grid-wide key.
    pub full: ObjectKey,
    /// The object's scene entity.
    pub entity: Entity,
    /// The extended properties, or `None` until the reply lands.
    pub properties: Option<ObjectProperties>,
    /// The selected faces: `None` for the whole object, else exactly those
    /// face indices.
    pub faces: Option<HashSet<u8>>,
    /// The last face this node's selection touched — moved by every per-face
    /// select and deselect, and reset to face 0 by a whole-object selection.
    pub last_face: u8,
}

/// What a selected node says.
pub struct NodeView {
    /// The object's scoped id.
    pub scoped: ScopedObjectId,
    /// The object's key.
    pub full: ObjectKey,
    /// The object's entity.
    pub entity: Entity,
    /// The properties, when they landed.
    pub properties: Option<PropertiesView>,
    /// The selected faces, `None` for the whole object.
    pub faces: Option<Set<u8>>,
    /// The last touched face.
    pub last_face: u8,
}

impl View for SelectedNode {
    type V = NodeView;

    open spec fn view(&self) -> NodeView {
        NodeView {
            scoped: self.scoped,
            full: self.full,
            entity: self.entity,
            properties: match self.properties {
                Some(p) => Some(p@),
                None => None,
            },
            faces: match self.faces {
                Some(f) => Some(f@),
                None => None,
            },
            last_face: self.last_face,
        }
    }
}

impl SelectedNode {
    /// This node's region-scoped id.
    pub fn scoped(&self) -> (s: ScopedObjectId)
        ensures
            s == self.scoped,
    {
        self.scoped
    }

    /// The extended properties, or `None` until the reply lands.
    pub fn properties(&self) -> (p: Option<&ObjectProperties>)
        ensures
            p matches Some(q) ==> self.properties == Some(*q),
            p is None <==> self.properties is None,
    {
        match &self.properties {
            Some(q) => Some(q),
            None => None,
        }
    }
}

/// A freshly selected node: no properties yet, the given faces, and the given
/// last face.
pub open spec fn fresh_node(
    scoped: ScopedObjectId,
    full: ObjectKey,
    entity: Entity,
    faces: Option<Set<u8>>,
    last_face: u8,
) -> NodeView {
    NodeView { scoped, full, entity, properties: None, faces, last_face }
}

/// The position of the first node in `nodes` at or after `i` selecting
/// `scoped`.
pub open spec fn first_with(nodes: Seq<NodeView>, scoped: ScopedObjectId, i: int) -> Option<int>
    decreases nodes.len() - i,
{
    if i < 0 || i >= nodes.len() {
        None
    } else if nodes[i].scoped == scoped {
        Some(i)
    } else {
        first_with(nodes, scoped, i + 1)
    }
}

/// A face set with `face` toggled: added when absent, taken out when present.
pub open spec fn toggled(faces: Set<u8>, face: u8) -> Set<u8> {
    if faces.contains(face) {
        faces.remove(face)
    } else {
        faces.insert(face)
    }
}

/// The maintained selection set; the primary selection is the last node.
#[derive(Debug)]
pub struct SelectionSet {
    /// The selected objects, in selection order; the primary is the last.
    pub selected: Vec<SelectedNode>,
    /// The objects a live rubber-band drag currently sweeps.
    pub rect_pending: Vec<(ScopedObjectId, Entity)>,
}

impl SelectionSet {
    /// The selected nodes, as what they say, in selection order.
    pub open spec fn nodes_view(&self) -> Seq<NodeView> {
        self.selected@.map_values(|n: SelectedNode| n@)
    }

    /// An empty selection.
    pub fn new() -> (s: SelectionSet)
        ensures
            s.selected@.len() == 0,
            s.rect_pending@.len() == 0,
    {
        SelectionSet { selected: Vec::new(), rect_pending: Vec::new() }
    }

    /// The position of the first node selecting `scoped`.
    fn position(&self, scoped: ScopedObjectId) -> (r: Option<usize>)
        ensures
            r matches Some(i) ==> i < self.selected@.len() && first_with(self.nodes_view(), scoped, 0) == Some(i as int),
            r is None ==> first_with(self.nodes_view(), scoped, 0) is None,
    {
        let mut i: usize = 0;
        while i < self.selected.len()
            invariant
                i <= self.selected.len(),
                first_with(self.nodes_view(), scoped, 0) == first_with(self.nodes_view(), scoped, i as int),
            decreases self.selected.len() - i,
        {
            if self.selected[i].scoped == scoped {
                return Some(i);
            }
            i = i + 1;
        }
        None
    }

    /// Whether `scoped` is in the selection.
    pub fn is_selected(&self, scoped: ScopedObjectId) -> (b: bool)
        ensures
            b == (first_with(self.nodes_view(), scoped, 0) is Some),
    {
        self.position(scoped).is_some()
    }

    /// Add an object to the selection, making it the primary; re-selecting an
    /// already-selected object promotes it to primary unchanged.
    pub fn insert(&mut self, scoped: ScopedObjectId, full: ObjectKey, entity: Entity)
        ensures
            final(self).rect_pending@ == old(self).rect_pending@,
            final(self).nodes_view() == match first_with(old(self).nodes_view(), scoped, 0) {
                Some(i) => old(self).nodes_view().remove(i).push(old(self).nodes_view()[i]),
                None => old(self).nodes_view().push(fresh_node(scoped, full, entity, None, FIRST_FACE)),
            },
    {
        match self.position(scoped) {
            Some(index) => {
                let ghost before = self.nodes_view();
                let node = self.selected.remove(index);
                self.selected.push(node);
                proof {
                    assert(self.nodes_view() =~= before.remove(index as int).push(before[index as int]));
                }
            },
            None => {
                self.selected.push(
                    SelectedNode { scoped, full, entity, properties: None, faces: None, last_face: FIRST_FACE },
                );
                proof {
                    assert(self.nodes_view() =~= old(self).nodes_view().push(
                        fresh_node(scoped, full, entity, None, FIRST_FACE),
                    ));
                }
            },
        }
    }

    /// The Select Face tool's plain click: the selection becomes exactly this
    /// object with exactly this face (an already-selected object keeps its
    /// node and properties; only its face set and last face change).
    pub fn select_only_face(&mut self, scoped: ScopedObjectId, full: ObjectKey, entity: Entity, face: u8)
        ensures
            final(self).rect_pending@ == old(self).rect_pending@,
            final(self).nodes_view() == match first_with(old(self).nodes_view(), scoped, 0) {
                Some(i) => seq![
                    NodeView {
                        faces: Some(set![face]),
                        last_face: face,
                        ..old(self).nodes_view()[i]
                    },
                ],
                None => seq![fresh_node(scoped, full, entity, Some(set![face]), face)],
            },
    {
        let mut faces: HashSet<u8> = HashSet::new();
        let _new = faces.insert(face);
        proof {
            assert(faces@ =~= set![face]);
        }
        match self.position(scoped) {
            Some(index) => {
                let mut node = self.selected.remove(index);
                node.faces = Some(faces);
                node.last_face = face;
                self.selected.clear();
                self.selected.push(node);
                proof {
                    assert(self.nodes_view() =~= seq![
                        NodeView {
                            faces: Some(set![face]),
                            last_face: face,
                            ..old(self).nodes_view()[index as int]
                        },
                    ]);
                }
            },
            None => {
                self.selected.clear();
                self.selected.push(
                    SelectedNode { scoped, full, entity, properties: None, faces: Some(faces), last_face: face },
                );
                proof {
                    assert(self.nodes_view() =~= seq![fresh_node(scoped, full, entity, Some(set![face]), face)]);
                }
            },
        }
    }

    /// Select exactly `scoped`, dropping every other object; an
    /// already-selected object keeps its node (and so its properties).
    pub fn select_only(&mut self, scoped: ScopedObjectId, full: ObjectKey, entity: Entity)
        ensures
            final(self).rect_pending@ == old(self).rect_pending@,
            final(self).nodes_view() == match first_with(old(self).nodes_view(), scoped, 0) {
                Some(i) => seq![old(self).nodes_view()[i]],
                None => seq![fresh_node(scoped, full, entity, None, FIRST_FACE)],
            },
    {
        match self.position(scoped) {
            Some(index) => {
                let node = self.selected.remove(index);
                self.selected.clear();
                self.selected.push(node);
                proof {
                    assert(self.nodes_view() =~= seq![old(self).nodes_view()[index as int]]);
                }
            },
            None => {
                self.selected.clear();
                self.selected.push(
                    SelectedNode { scoped, full, entity, properties: None, faces: None, last_face: FIRST_FACE },
                );
                proof {
                    assert(self.nodes_view() =~= seq![fresh_node(scoped, full, entity, None, FIRST_FACE)]);
                }
            },
        }
    }

    /// The Select Face tool's shift-click: toggle `face` in the object's face
    /// set (a whole-object node starts from no faces), moving its last face to
    /// `face` either way. An object whose set empties drops out of the
    /// selection; otherwise it becomes the primary. An object not selected is
    /// added with just this face.
    pub fn toggle_face(&mut self, scoped: ScopedObjectId, full: ObjectKey, entity: Entity, face: u8)
        ensures
            final(self).rect_pending@ == old(self).rect_pending@,
            final(self).nodes_view() == match first_with(old(self).nodes_view(), scoped, 0) {
                Some(i) => {
                    let node = old(self).nodes_view()[i];
                    let faces = toggled(
                        match node.faces {
                            Some(f) => f,
                            None => Set::empty(),
                        },
                        face,
                    );
                    if faces.len() == 0 {
                        old(self).nodes_view().remove(i)
                    } else {
                        old(self).nodes_view().remove(i).push(NodeView { faces: Some(faces), last_face: face, ..node })
                    }
                },
                None => old(self).nodes_view().push(fresh_node(scoped, full, entity, Some(set![face]), face)),
            },
    {
        match self.position(scoped) {
            Some(index) => {
                let ghost before = self.nodes_view();
                let mut node = self.selected.remove(index);
                let mut set = match node.faces {
                    Some(s) => s,
                    None => HashSet::new(),
                };
                let ghost start = set@;
                if !set.remove(&face) {
                    let _added = set.insert(face);
                }
                proof {
                    assert(set@ =~= toggled(start, face));
                    vstd::std_specs::hash::axiom_spec_hash_set_len(&set);
                }
                let emptied = set.len() == 0;
                node.faces = Some(set);
                node.last_face = face;
                if !emptied {
                    self.selected.push(node);
                }
                proof {
                    if emptied {
                        assert(self.nodes_view() =~= before.remove(index as int));
                    } else {
                        assert(self.nodes_view() =~= before.remove(index as int).push(
                            NodeView { faces: Some(toggled(start, face)), last_face: face, ..before[index as int] },
                        ));
                    }
                }
            },
            None => {
                let mut faces: HashSet<u8> = HashSet::new();
                let _new = faces.insert(face);
                self.selected.push(
                    SelectedNode { scoped, full, entity, properties: None, faces: Some(faces), last_face: face },
                );
                proof {
                    assert(faces@ =~= set![face]);
                    assert(self.nodes_view() =~= old(self).nodes_view().push(
                        fresh_node(scoped, full, entity, Some(set![face]), face),
                    ));
                }
            },
        }
    }

    /// The primary selection's selected faces: `None` for the whole object
    /// (or an empty selection), else the chosen face indices.
    pub fn primary_faces(&self) -> (f: Option<&HashSet<u8>>)
        ensures
            f matches Some(s) ==> self.selected@.len() > 0 && self.selected@.last().faces == Some(*s),
            f is None <==> (self.selected@.len() == 0 || self.selected@.last().faces is None),
    {
        let n = self.selected.len();
        if n == 0 {
            return None;
        }
        match &self.selected[n - 1].faces {
            Some(s) => Some(s),
            None => None,
        }
    }

    /// Remove an object from the selection (a no-op if absent).
    pub fn remove(&mut self, scoped: ScopedObjectId)
        ensures
            final(self).rect_pending@ == old(self).rect_pending@,
            final(self).nodes_view() == old(self).nodes_view().filter(|n: NodeView| n.scoped != scoped),
    {
        let keep = |n: &SelectedNode| -> (b: bool)
            ensures
                b == (n.scoped != scoped),
        {
            n.scoped != scoped
        };
        self.retain_nodes(keep, Ghost(|n: NodeView| n.scoped != scoped));
    }

    /// Remove every selected object with the grid-wide key `id`.
    pub fn remove_by_full_id(&mut self, id: Uuid)
        ensures
            final(self).rect_pending@ == old(self).rect_pending@,
            final(self).nodes_view() == old(self).nodes_view().filter(|n: NodeView| n.full != id),
    {
        let keep = |n: &SelectedNode| -> (b: bool)
            ensures
                b == (n.full != id),
        {
            n.full != id
        };
        self.retain_nodes(keep, Ghost(|n: NodeView| n.full != id));
    }

    /// Keep only the nodes `keep` accepts, in order; `pred` is what `keep`
    /// decides of a node's view.
    fn retain_nodes<F: Fn(&SelectedNode) -> bool>(&mut self, keep: F, Ghost(pred): Ghost<spec_fn(NodeView) -> bool>)
        requires
            forall|n: SelectedNode| #[trigger] keep.requires((&n,)),
            forall|n: SelectedNode, b: bool| #[trigger] keep.ensures((&n,), b) ==> b == pred(n@),
        ensures
            final(self).rect_pending@ == old(self).rect_pending@,
            final(self).nodes_view() == old(self).nodes_view().filter(pred),
    {
        let mut rest: Vec<SelectedNode> = Vec::new();
        std::mem::swap(&mut rest, &mut self.selected);
        let ghost orig = rest@.map_values(|n: SelectedNode| n@);
        let ghost mut k: int = 0;
        while rest.len() > 0
            invariant
                orig == old(self).nodes_view(),
                0 <= k <= orig.len(),
                rest@.map_values(|n: SelectedNode| n@) == orig.skip(k),
                self.nodes_view() == orig.take(k).filter(pred),
                self.rect_pending@ == old(self).rect_pending@,
                forall|n: SelectedNode| #[trigger] keep.requires((&n,)),
                forall|n: SelectedNode, b: bool| #[trigger] keep.ensures((&n,), b) ==> b == pred(n@),
            decreases rest.len(),
        {
            let ghost rest_before = rest@;
            let node = rest.remove(0);
            proof {
                assert(rest_before.map_values(|n: SelectedNode| n@).len() == rest_before.len());
                assert(k < orig.len());
                assert(orig.skip(k)[0] == orig[k]);
                assert(rest_before.map_values(|n: SelectedNode| n@)[0] == rest_before[0]@);
                assert(node@ == orig[k]);
                assert(orig.take(k + 1) =~= orig.take(k).push(node@));
                orig.take(k).lemma_filter_push(node@, pred);
                assert forall|j: int| 0 <= j < rest@.len() implies #[trigger] rest@[j]@ == orig.skip(k + 1)[j] by {
                    assert(rest@[j] == rest_before[j + 1]);
                    assert(rest_before.map_values(|n: SelectedNode| n@)[j + 1] == rest_before[j + 1]@);
                    assert(orig.skip(k)[j + 1] == orig[k + 1 + j]);
                }
                assert(rest@.map_values(|n: SelectedNode| n@) =~= orig.skip(k + 1));
            }
            let kept = keep(&node);
            let ghost mid = self.nodes_view();
            if kept {
                self.selected.push(node);
                proof {
                    assert(self.nodes_view() =~= mid.push(orig[k]));
                }
            }
            proof {
                k = k + 1;
            }
        }
        proof {
            assert(orig.take(orig.len() as int) =~= orig);
        }
    }

    /// The selected nodes, in selection order.
    pub fn nodes(&self) -> (n: &[SelectedNode])
        ensures
            n@ == self.selected@,
    {
        self.selected.as_slice()
    }

    /// Replace the selection wholesale; the last entry is the primary.
    pub fn replace_nodes(&mut self, nodes: Vec<SelectedNode>)
        ensures
            final(self).selected@ == nodes@,
            final(self).rect_pending@ == old(self).rect_pending@,
    {
        self.selected = nodes;
    }

    /// The tentative rubber-band sweep.
    pub fn rect_pending(&self) -> (r: &[(ScopedObjectId, Entity)])
        ensures
            r@ == self.rect_pending@,
    {
        self.rect_pending.as_slice()
    }

    /// Replace the tentative rubber-band sweep — the drag that owns it
    /// rewrites it as the rectangle moves.
    pub fn set_rect_pending(&mut self, sweep: Vec<(ScopedObjectId, Entity)>)
        ensures
            final(self).rect_pending@ == sweep@,
            final(self).selected@ == old(self).selected@,
    {
        self.rect_pending = sweep;
    }

    /// Empty the selection, committed and tentative.
    pub fn clear(&mut self)
        ensures
            final(self).selected@.len() == 0,
            final(self).rect_pending@.len() == 0,
    {
        self.selected.clear();
        self.rect_pending.clear();
    }

    /// The primary selection — the most recently selected object.
    pub fn primary(&self) -> (p: Option<&SelectedNode>)
        ensures
            p matches Some(n) ==> self.selected@.len() > 0 && *n == self.selected@.last(),
            p is None <==> self.selected@.len() == 0,
    {
        let n = self.selected.len();
        if n == 0 {
            None
        } else {
            Some(&self.selected[n - 1])
        }
    }

    /// How many objects are selected.
    pub fn len(&self) -> (n: usize)
        ensures
            n == self.selected@.len(),
    {
        self.selected.len()
    }

    /// Whether nothing is selected.
    pub fn is_empty(&self) -> (b: bool)
        ensures
            b == (self.selected@.len() == 0),
    {
        self.selected.len() == 0
    }

    /// Locally echo an edited name / description onto the primary node's
    /// properties (the simulator does not echo these edits back). Nothing
    /// changes while the primary has no properties yet.
    pub fn set_primary_name_description(&mut self, name: Option<&str>, description: Option<&str>)
        ensures
            final(self).rect_pending@ == old(self).rect_pending@,
            final(self).selected@.len() == old(self).selected@.len(),
            (old(self).selected@.len() == 0 || old(self).selected@.last().properties is None) ==> final(self).nodes_view()
                == old(self).nodes_view(),
            old(self).selected@.len() > 0 && old(self).selected@.last().properties is Some ==> {
                let last = old(self).nodes_view().last();
                let props = last.properties->Some_0;
                final(self).nodes_view() == old(self).nodes_view().update(
                    old(self).selected@.len() - 1,
                    NodeView {
                        properties: Some(
                            PropertiesView {
                                name: match name {
                                    Some(n) => n@,
                                    None => props.name,
                                },
                                description: match description {
                                    Some(d) => d@,
                                    None => props.description,
                                },
                                ..props
                            },
                        ),
                        ..last
                    },
                )
            },
    {
        let n = self.selected.len();
        if n == 0 {
            return;
        }
        let ghost before = self.nodes_view();
        let mut node = self.selected.remove(n - 1);
        match node.properties {
            Some(mut p) => {
                if let Some(name) = name {
                    p.name = name.to_owned();
                }
                if let Some(description) = description {
                    p.description = description.to_owned();
                }
                node.properties = Some(p);
            },
            None => {},
        }
        self.selected.push(node);
        proof {
            if old(self).selected@.last().properties is None {
                assert(self.nodes_view() =~= before);
            } else {
                let last = before.last();
                let props = last.properties->Some_0;
                assert(self.nodes_view() =~= before.update(
                    n - 1,
                    NodeView {
                        properties: Some(
                            PropertiesView {
                                name: match name {
                                    Some(n) => n@,
                                    None => props.name,
                                },
                                description: match description {
                                    Some(d) => d@,
                                    None => props.description,
                                },
                                ..props
                            },
                        ),
                        ..last
                    },
                ));
            }
        }
    }

    /// Fold a properties reply onto the first node it belongs to (matched by
    /// grid-wide key); say whether a node took it.
    pub fn apply_properties(&mut self, properties: ObjectProperties) -> (took: bool)
        ensures
            final(self).rect_pending@ == old(self).rect_pending@,
            took == exists|i: int| 0 <= i < old(self).selected@.len() && #[trigger] old(self).selected@[i].full
                == properties.object_id,
            !took ==> final(self).nodes_view() == old(self).nodes_view(),
            took ==> exists|i: int|
                0 <= i < old(self).selected@.len() && #[trigger] old(self).selected@[i].full == properties.object_id
                    && (forall|j: int| 0 <= j < i ==> old(self).selected@[j].full != properties.object_id)
                    && final(self).nodes_view() == old(self).nodes_view().update(
                    i,
                    NodeView { properties: Some(properties@), ..old(self).nodes_view()[i] },
                ),
    {
        let mut i: usize = 0;
        while i < self.selected.len()
            invariant
                self.selected@ == old(self).selected@,
                self.rect_pending@ == old(self).rect_pending@,
                i <= self.selected.len(),
                forall|j: int| 0 <= j < i ==> old(self).selected@[j].full != properties.object_id,
            decreases self.selected.len() - i,
        {
            if self.selected[i].full == properties.object_id {
                let ghost before = self.nodes_view();
                let mut node = self.selected.remove(i);
                node.properties = Some(properties);
                self.selected.insert(i, node);
                proof {
                    assert(self.nodes_view() =~= before.update(
                        i as int,
                        NodeView { properties: Some(properties@), ..before[i as int] },
                    ));
                    assert(old(self).selected@[i as int].full == properties.object_id);
                }
                return true;
            }
            i = i + 1;
        }
        false
    }
}

impl Default for SelectionSet {
    /// An empty selection.
    fn default() -> (s: SelectionSet)
        ensures
            s.selected@.len() == 0,
            s.rect_pending@.len() == 0,
    {
        SelectionSet::new()
    }
}

/// Which manipulator the build tool drives.
#[derive(Debug, Clone, Copy, PartialEq, Eq, Structural)]
pub enum EditTool {
    /// The translate gizmo (axis arrows and planar handles).
    Move,
    /// The rotate gizmo (axis rings).
    Rotate,
    /// The scale gizmo (face and corner handles).
    Stretch,
    /// No transform gizmo: a click picks a prim face into the per-face
    /// selection the texture tab edits; a shift-click builds a multi-face set.
    SelectFace,
    /// No transform gizmo: a click on a surface rezzes the picked base type
    /// there and drops into edit on the new object.
    Create,
}

impl Default for EditTool {
    /// The move tool.
    fn default() -> (t: EditTool)
        ensures
            t == EditTool::Move,
    {
        EditTool::Move
    }
}

/// The tool-mode radio options, in the order they appear in the build
/// floater. The one place the index-to-tool mapping lives.
pub const BUILD_TOOLS: [EditTool; 5] = [
    EditTool::Create,
    EditTool::Move,
    EditTool::Rotate,
    EditTool::Stretch,
    EditTool::SelectFace,
];

/// The radio row of [`BUILD_TOOLS`], as a sequence.
pub open spec fn build_tools() -> Seq<EditTool> {
    seq![EditTool::Create, EditTool::Move, EditTool::Rotate, EditTool::Stretch, EditTool::SelectFace]
}

impl EditTool {
    /// This tool's index into [`BUILD_TOOLS`]: the radio option it selects.
    pub fn radio_index(self) -> (i: usize)
        ensures
            i < build_tools().len(),
            build_tools()[i as int] == self,
    {
        let tools = BUILD_TOOLS;
        assert(tools@ == build_tools());
        let mut i: usize = 0;
        while i < 5
            invariant
                i <= 5,
                tools@ == build_tools(),
                forall|j: int| 0 <= j < i ==> build_tools()[j] != self,
            decreases 5 - i,
        {
            if tools[i] == self {
                return i;
            }
            i = i + 1;
        }
        0
    }
}

/// The grid frame the gizmos align to and snap in.
#[derive(Debug, Clone, Copy, PartialEq, Eq, Structural)]
pub enum GridFrame {
    /// The world axes.
    World,
    /// The primary selection's own axes.
    Local,
    /// A reference object's axes.
    Reference,
}

impl Default for GridFrame {
    /// The world axes.
    fn default() -> (f: GridFrame)
        ensures
            f == GridFrame::World,
    {
        GridFrame::World
    }
}

/// The build tool's shared state. The grid unit, a length in metres, is kept
/// beside it by the caller.
#[derive(Debug, Clone, Copy, PartialEq, Eq, Structural)]
pub struct EditToolState {
    /// Whether the build tool is active (the floater is open).
    pub active: bool,
    /// The manipulator picked in the floater (the resting tool).
    pub tool: EditTool,
    /// A manipulator temporarily forced by a held modifier (`Ctrl` = rotate,
    /// `Ctrl+Shift` = stretch), cleared on release.
    pub held_override: Option<EditTool>,
    /// Edit linked parts: select individual linkset prims instead of whole
    /// linksets.
    pub edit_linked: bool,
    /// Stretch both sides: scale about the selection centre.
    pub stretch_both: bool,
    /// Whether grid snapping is on.
    pub snap: bool,
    /// The grid frame the gizmos align to.
    pub frame: GridFrame,
}

impl Default for EditToolState {
    /// Move tool, whole-linkset selection, snap on, world frame, inactive.
    fn default() -> (s: EditToolState)
        ensures
            !s.active,
            s.tool == EditTool::Move,
            s.held_override.is_none(),
            !s.edit_linked,
            !s.stretch_both,
            s.snap,
            s.frame == GridFrame::World,
    {
        EditToolState {
            active: false,
            tool: EditTool::Move,
            held_override: None,
            edit_linked: false,
            stretch_both: false,
            snap: true,
            frame: GridFrame::World,
        }
    }
}

impl EditToolState {
    /// The manipulator in effect: the held modifier's override, else the
    /// resting tool.
    pub fn effective_tool(&self) -> (t: EditTool)
        ensures
            t == match self.held_override {
                Some(o) => o,
                None => self.tool,
            },
    {
        match self.held_override {
            Some(o) => o,
            None => self.tool,
        }
    }
}

/// Which material system the texture tab edits.
#[derive(Debug, Clone, Copy, PartialEq, Eq, Structural)]
pub enum MatMedia {
    /// The legacy Blinn-Phong mode: a diffuse texture plus optional normal and
    /// specular maps.
    Material,
    /// The PBR (glTF) render-material mode.
    Pbr,
}

impl Default for MatMedia {
    /// Material mode.
    fn default() -> (m: MatMedia)
        ensures
            m == MatMedia::Material,
    {
        MatMedia::Material
    }
}

/// The Material-mode map channel a Blinn-Phong edit applies to.
#[derive(Debug, Clone, Copy, PartialEq, Eq, Structural)]
pub enum MatChannel {
    /// The diffuse texture channel.
    Diffuse,
    /// The bumpiness (normal-map) channel.
    Normal,
    /// The shininess (specular-map) channel.
    Specular,
}

impl Default for MatChannel {
    /// The diffuse channel.
    fn default() -> (c: MatChannel)
        ensures
            c == MatChannel::Diffuse,
    {
        MatChannel::Diffuse
    }
}

/// The active PBR texture channel a transform edits, or the whole material.
#[derive(Debug, Clone, Copy, PartialEq, Eq, Structural)]
pub enum PbrChannel {
    /// The complete render material (its asset id).
    Material,
    /// The base-colour texture.
    BaseColor,
    /// The metallic-roughness texture.
    MetallicRoughness,
    /// The emissive texture.
    Emissive,
    /// The normal texture.
    Normal,
}

impl Default for PbrChannel {
    /// The whole render material.
    fn default() -> (c: PbrChannel)
        ensures
            c == PbrChannel::Material,
    {
        PbrChannel::Material
    }
}

/// The `matmedia` strip options, in strip order.
pub(crate) const MAT_MEDIA_MODES: [MatMedia; 2] = [MatMedia::Material, MatMedia::Pbr];

/// The material-type radio options, in row order.
pub(crate) const MATERIAL_CHANNELS: [MatChannel; 3] = [
    MatChannel::Diffuse,
    MatChannel::Normal,
    MatChannel::Specular,
];

/// The PBR-type radio options, in row order.
pub(crate) const PBR_CHANNELS: [PbrChannel; 5] = [
    PbrChannel::Material,
    PbrChannel::BaseColor,
    PbrChannel::MetallicRoughness,
    PbrChannel::Emissive,
    PbrChannel::Normal,
];

/// The `matmedia` strip, as a sequence.
pub open spec fn mat_media_modes() -> Seq<MatMedia> {
    seq![MatMedia::Material, MatMedia::Pbr]
}

/// The material-type radio row, as a sequence.
pub open spec fn material_channels() -> Seq<MatChannel> {
    seq![MatChannel::Diffuse, MatChannel::Normal, MatChannel::Specular]
}

/// The PBR-type radio row, as a sequence.
pub open spec fn pbr_channels() -> Seq<PbrChannel> {
    seq![
        PbrChannel::Material,
        PbrChannel::BaseColor,
        PbrChannel::MetallicRoughness,
        PbrChannel::Emissive,
        PbrChannel::Normal,
    ]
}

impl MatMedia {
    /// This mode's index in the `matmedia` strip.
    pub fn radio_index(self) -> (i: usize)
        ensures
            i < mat_media_modes().len(),
            mat_media_modes()[i as int] == self,
    {
        let modes = MAT_MEDIA_MODES;
        assert(modes@ == mat_media_modes());
        let mut i: usize = 0;
        while i < 2
            invariant
                i <= 2,
                modes@ == mat_media_modes(),
                forall|j: int| 0 <= j < i ==> mat_media_modes()[j] != self,
            decreases 2 - i,
        {
            if modes[i] == self {
                return i;
            }
            i = i + 1;
        }
        0
    }

    /// The mode a strip index selects; Material for an index the strip does
    /// not carry.
    pub fn from_radio_index(index: usize) -> (m: MatMedia)
        ensures
            m == (if index < mat_media_modes().len() { mat_media_modes()[index as int] } else {
                MatMedia::Material
            }),
    {
        let modes = MAT_MEDIA_MODES;
        assert(modes@ == mat_media_modes());
        if index < 2 {
            modes[index]
        } else {
            MatMedia::default()
        }
    }
}

impl MatChannel {
    /// This channel's index in the material-type radio row.
    pub fn radio_index(self) -> (i: usize)
        ensures
            i < material_channels().len(),
            material_channels()[i as int] == self,
    {
        let channels = MATERIAL_CHANNELS;
        assert(channels@ == material_channels());
        let mut i: usize = 0;
        while i < 3
            invariant
                i <= 3,
                channels@ == material_channels(),
                forall|j: int| 0 <= j < i ==> material_channels()[j] != self,
            decreases 3 - i,
        {
            if channels[i] == self {
                return i;
            }
            i = i + 1;
        }
        0
    }

    /// The channel a radio index selects; Diffuse for an index the row does
    /// not carry.
    pub fn from_radio_index(index: usize) -> (c: MatChannel)
        ensures
            c == (if index < material_channels().len() { material_channels()[index as int] } else {
                MatChannel::Diffuse
            }),
    {
        let channels = MATERIAL_CHANNELS;
        assert(channels@ == material_channels());
        if index < 3 {
            channels[index]
        } else {
            MatChannel::default()
        }
    }
}

impl PbrChannel {
    /// This channel's index in the PBR-type radio row.
    pub fn radio_index(self) -> (i: usize)
        ensures
            i < pbr_channels().len(),
            pbr_channels()[i as int] == self,
    {
        let channels = PBR_CHANNELS;
        assert(channels@ == pbr_channels());
        let mut i: usize = 0;
        while i < 5
            invariant
                i <= 5,
                channels@ == pbr_channels(),
                forall|j: int| 0 <= j < i ==> pbr_channels()[j] != self,
            decreases 5 - i,
        {
            if channels[i] == self {
                return i;
            }
            i = i + 1;
        }
        0
    }

    /// The channel a radio index selects; the whole render material for an
    /// index the row does not carry.
    pub fn from_radio_index(index: usize) -> (c: PbrChannel)
        ensures
            c == (if index < pbr_channels().len() { pbr_channels()[index as int] } else {
                PbrChannel::Material
            }),
    {
        let channels = PBR_CHANNELS;
        assert(channels@ == pbr_channels());
        if index < 5 {
            channels[index]
        } else {
            PbrChannel::default()
        }
    }
}

/// The current material mode and channels the texture tab edits, mirrored
/// from its three selector widgets.
#[derive(Debug, Clone, Copy, PartialEq, Eq, Structural)]
pub struct MatModeState {
    /// Which material system the tab edits.
    pub matmedia: MatMedia,
    /// The Material-mode map channel.
    pub mat_type: MatChannel,
    /// The PBR-mode channel.
    pub pbr_type: PbrChannel,
}

impl Default for MatModeState {
    /// Material mode, diffuse channel, whole render material.
    fn default() -> (s: MatModeState)
        ensures
            s.matmedia == MatMedia::Material,
            s.mat_type == MatChannel::Diffuse,
            s.pbr_type == PbrChannel::Material,
    {
        MatModeState {
            matmedia: MatMedia::Material,
            mat_type: MatChannel::Diffuse,
            pbr_type: PbrChannel::Material,
        }
    }
}

impl MatModeState {
    /// Whether the Material (Blinn-Phong) mode is active.
    pub fn is_material(self) -> (b: bool)
        ensures
            b <==> self.matmedia == MatMedia::Material,
    {
        match self.matmedia {
            MatMedia::Material => true,
            MatMedia::Pbr => false,
        }
    }

    /// Whether the PBR (glTF) mode is active.
    pub fn is_pbr(self) -> (b: bool)
        ensures
            b <==> self.matmedia == MatMedia::Pbr,
    {
        match self.matmedia {
            MatMedia::Material => false,
            MatMedia::Pbr => true,
        }
    }
}

/// Every radio row of the build floater and the texture tab lists each
/// option exactly once: no two indices share an option and every option has
/// an index. So the index an option reports is the only one that selects it
/// again, and selecting by that index gives the option back.
pub proof fn law_radio_rows_list_each_option_once()
    ensures
        forall|i: int, j: int| 0 <= i < j < build_tools().len() ==> build_tools()[i] != build_tools()[j],
        forall|t: EditTool| #[trigger] build_tools().contains(t),
        forall|i: int, j: int|
            0 <= i < j < mat_media_modes().len() ==> mat_media_modes()[i] != mat_media_modes()[j],
        forall|m: MatMedia| #[trigger] mat_media_modes().contains(m),
        forall|i: int, j: int|
            0 <= i < j < material_channels().len() ==> material_channels()[i] != material_channels()[j],
        forall|c: MatChannel| #[trigger] material_channels().contains(c),
        forall|i: int, j: int| 0 <= i < j < pbr_channels().len() ==> pbr_channels()[i] != pbr_channels()[j],
        forall|c: PbrChannel| #[trigger] pbr_channels().contains(c),
{
    assert forall|t: EditTool| #[trigger] build_tools().contains(t) by {
        let i: int = match t {
            EditTool::Create => 0,
            EditTool::Move => 1,
            EditTool::Rotate => 2,
            EditTool::Stretch => 3,
            EditTool::SelectFace => 4,
        };
        assert(build_tools()[i] == t);
    }
    assert forall|m: MatMedia| #[trigger] mat_media_modes().contains(m) by {
        let i: int = match m {
            MatMedia::Material => 0,
            MatMedia::Pbr => 1,
        };
        assert(mat_media_modes()[i] == m);
    }
    assert forall|c: MatChannel| #[trigger] material_channels().contains(c) by {
        let i: int = match c {
            MatChannel::Diffuse => 0,
            MatChannel::Normal => 1,
            MatChannel::Specular => 2,
        };
        assert(material_channels()[i] == c);
    }
    assert forall|c: PbrChannel| #[trigger] pbr_channels().contains(c) by {
        let i: int = match c {
            PbrChannel::Material => 0,
            PbrChannel::BaseColor => 1,
            PbrChannel::MetallicRoughness => 2,
            PbrChannel::Emissive => 3,
            PbrChannel::Normal => 4,
        };
        assert(pbr_channels()[i] == c);
    }
}

/// A face picked and then un-picked leaves the face set as it was, and so
/// does one un-picked and then picked again: toggling is its own undo.
pub proof fn law_toggling_a_face_twice_restores_the_set(faces: Set<u8>, face: u8)
    ensures
        toggled(toggled(faces, face), face) == faces,
{
    if faces.contains(face) {
        assert(faces.remove(face).insert(face) =~= faces);
    } else {
        assert(faces.insert(face).remove(face) =~= faces);
    }
}

} // verus!

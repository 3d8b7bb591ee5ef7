//! The scene arena.
//!
//! A [`Scene`] owns three flat stores: the entities, the meshes and the
//! materials. Entities refer to meshes, materials and to each other by index;
//! nothing is ever removed, so an index stays valid for the life of the scene.
//! The parent-child relation is stored twice, as a parent field per entity and
//! as a list of children per entity, and [`SceneView::wf`] says that the two
//! agree.

use vstd::prelude::*;
use crate::geometry::{Color, Transform};

verus! {

/// Index of an entity in a scene.
#[derive(Clone, Copy, Debug, PartialEq, Eq, Hash, Structural)]
pub struct Entity {
    pub index: usize,
}

/// Index of a mesh in a scene's mesh table.
#[derive(Clone, Copy, Debug, PartialEq, Eq, Hash, Structural)]
pub struct MeshHandle {
    pub index: usize,
}

/// Index of a material in a scene's material table.
#[derive(Clone, Copy, Debug, PartialEq, Eq, Hash, Structural)]
pub struct MaterialHandle {
    pub index: usize,
}

/// Where the geometry of a mesh comes from.
#[derive(Debug, PartialEq, Eq)]
pub enum MeshSource {
    /// A flat square in the X/Z plane, centred on the origin, with the given
    /// fixed-point edge length.
    Plane { size: i32 },
    /// A named part of a packaged model file, given as `file#part`.
    Asset { path: String },
}

/// Mathematical value of a [`MeshSource`].
pub enum MeshView {
    Plane { size: i32 },
    Asset { path: Seq<char> },
}

impl View for MeshSource {
    type V = MeshView;

    open spec fn view(&self) -> MeshView {
        match self {
            MeshSource::Plane { size } => MeshView::Plane { size: *size },
            MeshSource::Asset { path } => MeshView::Asset { path: path@ },
        }
    }
}

/// What an entity shows.
#[derive(Clone, Copy, Debug, PartialEq, Eq)]
pub enum Content {
    /// The perspective camera the scene is seen through.
    Camera,
    /// A point light.
    PointLight,
    /// A mesh drawn with a material. An entity without mesh draws nothing
    /// and only positions its children.
    Model { mesh: Option<MeshHandle>, material: Option<MaterialHandle> },
}

/// One entity of a scene.
#[derive(Clone, Copy, Debug, PartialEq, Eq)]
pub struct Node {
    pub transform: Transform,
    pub content: Content,
    pub parent: Option<Entity>,
}

/// Mathematical value of a [`Scene`].
pub struct SceneView {
    /// The entities, in the order of their creation.
    pub nodes: Seq<Node>,
    /// For each entity, its children in the order in which they were attached.
    pub children: Seq<Seq<Entity>>,
    pub materials: Seq<Color>,
    pub meshes: Seq<MeshView>,
}

/// Index of the first entry of `meshes` that is the asset `path`, or the
/// length of `meshes` if there is none.
pub open spec fn first_asset(meshes: Seq<MeshView>, path: Seq<char>) -> int
    decreases meshes.len(),
{
    if meshes.len() == 0 {
        0
    } else {
        let before = first_asset(meshes.drop_last(), path);
        if before < meshes.len() - 1 {
            before
        } else if meshes.last() == (MeshView::Asset { path }) {
            meshes.len() - 1
        } else {
            meshes.len() as int
        }
    }
}

impl SceneView {
    /// The scene without entities, meshes or materials.
    pub open spec fn empty() -> SceneView {
        SceneView {
            nodes: Seq::empty(),
            children: Seq::empty(),
            materials: Seq::empty(),
            meshes: Seq::empty(),
        }
    }

    /// Whether `entity` is an entity of this scene.
    pub open spec fn contains(self, entity: Entity) -> bool {
        entity.index < self.nodes.len()
    }

    /// Whether `handle` refers to a mesh of this scene.
    pub open spec fn has_mesh(self, handle: MeshHandle) -> bool {
        handle.index < self.meshes.len()
    }

    /// Whether `handle` refers to a material of this scene.
    pub open spec fn has_material(self, handle: MaterialHandle) -> bool {
        handle.index < self.materials.len()
    }

    /// Whether every handle in `content` refers to a resource of this scene.
    pub open spec fn resolves(self, content: Content) -> bool {
        match content {
            Content::Model { mesh, material } => {
                &&& mesh matches Some(h) ==> self.has_mesh(h)
                &&& material matches Some(h) ==> self.has_material(h)
            },
            _ => true,
        }
    }

    /// The entity at position `i` is consistent with the rest of the scene:
    /// its handles resolve, and its parent, if it has one, was created before
    /// it and lists it as a child.
    pub open spec fn node_wf(self, i: int) -> bool {
        &&& self.resolves(self.nodes[i].content)
        &&& self.nodes[i].parent matches Some(p) ==> {
            &&& p.index < i
            &&& self.children[p.index as int].contains(Entity { index: i as usize })
        }
    }

    /// The `k`-th child of the entity at position `p` is consistent with the
    /// rest of the scene: it is an entity created after `p`, it names `p` as
    /// its parent, and the children that follow it were created after it.
    pub open spec fn edge_wf(self, p: int, k: int) -> bool {
        let child = self.children[p][k];
        &&& p < child.index < self.nodes.len()
        &&& self.nodes[child.index as int].parent == Some(Entity { index: p as usize })
        &&& forall|l: int|
            k < l < self.children[p].len() ==> child.index < (#[trigger] self.children[p][l]).index
    }

    /// No asset occurs twice in the mesh table.
    pub open spec fn assets_distinct(self) -> bool {
        forall|i: int, j: int|
            0 <= i < j < self.meshes.len() && (#[trigger] self.meshes[i]) is Asset
                ==> self.meshes[i] != #[trigger] self.meshes[j]
    }

    /// The scene is well formed: every index fits a machine word, the two
    /// records of the parent-child relation agree, the relation has no cycle,
    /// every handle resolves and every asset has one handle only.
    pub open spec fn wf(self) -> bool {
        &&& self.nodes.len() <= usize::MAX
        &&& self.meshes.len() <= usize::MAX
        &&& self.materials.len() <= usize::MAX
        &&& self.children.len() == self.nodes.len()
        &&& forall|i: int| 0 <= i < self.nodes.len() ==> #[trigger] self.node_wf(i)
        &&& forall|p: int, k: int|
            0 <= p < self.children.len() && 0 <= k < self.children[p].len()
                ==> #[trigger] self.edge_wf(p, k)
        &&& self.assets_distinct()
    }

    /// This scene with one more material, `color`, at the end of the table.
    pub open spec fn with_material(self, color: Color) -> SceneView {
        SceneView { materials: self.materials.push(color), ..self }
    }

    /// This scene with one more mesh, a plane, at the end of the table.
    pub open spec fn with_plane(self, size: i32) -> SceneView {
        SceneView { meshes: self.meshes.push(MeshView::Plane { size }), ..self }
    }

    /// Whether the asset `path` has an entry in the mesh table.
    pub open spec fn has_asset(self, path: Seq<char>) -> bool {
        first_asset(self.meshes, path) < self.meshes.len()
    }

    /// The handle of the asset `path`: that of its entry in the mesh table,
    /// or, if it has none yet, the handle that the next new mesh will get.
    pub open spec fn asset_handle(self, path: Seq<char>) -> MeshHandle {
        MeshHandle { index: first_asset(self.meshes, path) as usize }
    }

    /// This scene once the asset `path` has an entry in the mesh table: the
    /// scene itself if it had one, else the scene with the asset added at
    /// the end.
    pub open spec fn with_asset(self, path: Seq<char>) -> SceneView {
        if self.has_asset(path) {
            self
        } else {
            SceneView { meshes: self.meshes.push(MeshView::Asset { path }), ..self }
        }
    }

    /// This scene with one more entity, which has no parent.
    pub open spec fn with_root(self, transform: Transform, content: Content) -> SceneView {
        SceneView {
            nodes: self.nodes.push(Node { transform, content, parent: None }),
            children: self.children.push(Seq::empty()),
            ..self
        }
    }

    /// This scene with one more entity, attached to `parent` as its last
    /// child.
    pub open spec fn with_child(
        self,
        parent: Entity,
        transform: Transform,
        content: Content,
    ) -> SceneView
        recommends
            self.contains(parent),
    {
        let child = Entity { index: self.nodes.len() as usize };
        let siblings = self.children[parent.index as int];
        SceneView {
            nodes: self.nodes.push(Node { transform, content, parent: Some(parent) }),
            children: self.children.update(parent.index as int, siblings.push(child)).push(
                Seq::empty(),
            ),
            ..self
        }
    }
}

/// Whether `after` is `before` with entities, meshes and materials added at
/// the end only: what `before` holds, `after` holds at the same index, and
/// no entity of `before` has got a child.
pub open spec fn extends(before: SceneView, after: SceneView) -> bool {
    &&& before.nodes.len() <= after.nodes.len()
    &&& before.children.len() <= after.children.len()
    &&& before.meshes.len() <= after.meshes.len()
    &&& before.materials.len() <= after.materials.len()
    &&& forall|i: int| 0 <= i < before.nodes.len() ==> #[trigger] after.nodes[i] == before.nodes[i]
    &&& forall|i: int|
        0 <= i < before.children.len() ==> #[trigger] after.children[i] == before.children[i]
    &&& forall|i: int|
        0 <= i < before.meshes.len() ==> #[trigger] after.meshes[i] == before.meshes[i]
    &&& forall|i: int|
        0 <= i < before.materials.len() ==> #[trigger] after.materials[i] == before.materials[i]
}

/// `first_asset` finds the asset if it is there, finds its first entry, and
/// says so if it is not there.
pub proof fn lemma_first_asset(meshes: Seq<MeshView>, path: Seq<char>)
    ensures
        0 <= first_asset(meshes, path) <= meshes.len(),
        first_asset(meshes, path) < meshes.len() ==> meshes[first_asset(meshes, path)] == (
        MeshView::Asset { path }),
        forall|i: int|
            0 <= i < first_asset(meshes, path) ==> #[trigger] meshes[i] != (MeshView::Asset {
                path,
            }),
    decreases meshes.len(),
{
    if meshes.len() > 0 {
        lemma_first_asset(meshes.drop_last(), path);
        assert forall|i: int| 0 <= i < first_asset(meshes, path) implies #[trigger] meshes[i] != (
        MeshView::Asset { path }) by {
            if i < meshes.len() - 1 {
                assert(meshes.drop_last()[i] == meshes[i]);
            }
        }
    }
}

struct Slot {
    node: Node,
    children: Vec<Entity>,
}

/// A scene under construction: entities, meshes and materials.
pub struct Scene {
    slots: Vec<Slot>,
    materials: Vec<Color>,
    meshes: Vec<MeshSource>,
}

impl View for Scene {
    type V = SceneView;

    closed spec fn view(&self) -> SceneView {
        SceneView {
            nodes: Seq::new(self.slots@.len(), |i: int| self.slots@[i].node),
            children: Seq::new(self.slots@.len(), |i: int| self.slots@[i].children@),
            materials: self.materials@,
            meshes: Seq::new(self.meshes@.len(), |i: int| self.meshes@[i]@),
        }
    }
}

impl Scene {
    /// Every index into a scene that exists in memory fits a machine word.
    pub proof fn lemma_fits(&self)
        ensures
            self@.nodes.len() <= usize::MAX,
            self@.children.len() == self@.nodes.len(),
            self@.meshes.len() <= usize::MAX,
            self@.materials.len() <= usize::MAX,
    {
        assert(self.slots@.len() == self.slots.len());
        assert(self.meshes@.len() == self.meshes.len());
        assert(self.materials@.len() == self.materials.len());
    }

    /// The empty scene.
    pub fn new() -> (scene: Scene)
        ensures
            scene@ == SceneView::empty(),
            scene@.wf(),
    {
        let scene = Scene { slots: Vec::new(), materials: Vec::new(), meshes: Vec::new() };
        assert(scene@.nodes =~= Seq::empty());
        assert(scene@.children =~= Seq::empty());
        assert(scene@.meshes =~= Seq::empty());
        scene
    }

    /// Adds a material of the given colour and returns its handle. Every call
    /// makes a new material, whether or not the colour is in the table.
    pub fn add_material(&mut self, color: Color) -> (handle: MaterialHandle)
        ensures
            final(self)@ == old(self)@.with_material(color),
            handle.index == old(self)@.materials.len(),
            old(self)@.wf() ==> final(self)@.wf(),
    {
        let handle = MaterialHandle { index: self.materials.len() };
        self.materials.push(color);
        proof {
            assert(self@ == old(self)@.with_material(color));
            if old(self)@.wf() {
                assert(self.materials@.len() == self.materials.len());
                lemma_with_material_wf(old(self)@, color);
            }
        }
        handle
    }

    /// Adds a plane of the given edge length to the mesh table and returns
    /// its handle. Every call makes a new mesh.
    pub fn add_plane(&mut self, size: i32) -> (handle: MeshHandle)
        ensures
            final(self)@ == old(self)@.with_plane(size),
            handle.index == old(self)@.meshes.len(),
            old(self)@.wf() ==> final(self)@.wf(),
    {
        let handle = MeshHandle { index: self.meshes.len() };
        self.meshes.push(MeshSource::Plane { size });
        proof {
            assert(self@.meshes =~= old(self)@.meshes.push(MeshView::Plane { size }));
            assert(self@ == old(self)@.with_plane(size));
            if old(self)@.wf() {
                assert(self.meshes@.len() == self.meshes.len());
                lemma_with_plane_wf(old(self)@, size);
            }
        }
        handle
    }

    /// Returns the handle of the asset `path`. The first call for a path adds
    /// the asset to the mesh table; every later call for the same path finds
    /// that entry and changes nothing.
    pub fn load_mesh(&mut self, path: &str) -> (handle: MeshHandle)
        ensures
            final(self)@ == old(self)@.with_asset(path@),
            handle == old(self)@.asset_handle(path@),
            final(self)@.has_asset(path@),
            final(self)@.has_mesh(handle),
            final(self)@.meshes[handle.index as int] == (MeshView::Asset { path: path@ }),
            old(self)@.wf() ==> final(self)@.wf(),
    {
        let owned: String = path.to_owned();
        let mut i: usize = 0;
        proof {
            assert(self@.meshes.take(0) =~= Seq::empty());
        }
        while i < self.meshes.len()
            invariant
                i <= self.meshes.len(),
                owned@ == path@,
                first_asset(self@.meshes.take(i as int), path@) == i,
            decreases self.meshes.len() - i,
        {
            let found = match &self.meshes[i] {
                MeshSource::Asset { path: p } => *p == owned,
                MeshSource::Plane { .. } => false,
            };
            proof {
                let upto = self@.meshes.take(i + 1);
                assert(upto.drop_last() =~= self@.meshes.take(i as int));
                assert(upto.last() == self@.meshes[i as int]);
                assert(found <==> upto.last() == (MeshView::Asset { path: path@ }));
            }
            if found {
                proof {
                    lemma_first_asset_prefix(self@.meshes, path@, i + 1);
                }
                return MeshHandle { index: i };
            }
            i += 1;
        }
        proof {
            assert(self@.meshes.take(i as int) =~= self@.meshes);
        }
        self.meshes.push(MeshSource::Asset { path: owned });
        proof {
            assert(self@.meshes =~= old(self)@.meshes.push(MeshView::Asset { path: path@ }));
            assert(self@ == old(self)@.with_asset(path@));
            if old(self)@.wf() {
                assert(self.meshes@.len() == self.meshes.len());
                lemma_with_asset_wf(old(self)@, path@);
            }
        }
        MeshHandle { index: i }
    }

    /// Number of entities.
    pub fn len(&self) -> (count: usize)
        ensures
            count == self@.nodes.len(),
    {
        self.slots.len()
    }

    /// Number of meshes in the mesh table.
    pub fn mesh_count(&self) -> (count: usize)
        ensures
            count == self@.meshes.len(),
    {
        self.meshes.len()
    }

    /// Number of materials in the material table.
    pub fn material_count(&self) -> (count: usize)
        ensures
            count == self@.materials.len(),
    {
        self.materials.len()
    }

    /// The entity `entity`, or `None` if the scene has no such entity.
    pub fn node(&self, entity: Entity) -> (node: Option<Node>)
        ensures
            node == if self@.contains(entity) {
                Some(self@.nodes[entity.index as int])
            } else {
                None
            },
    {
        if entity.index < self.slots.len() {
            Some(self.slots[entity.index].node)
        } else {
            None
        }
    }

    /// The children of `entity`, in the order in which they were attached,
    /// or `None` if the scene has no such entity.
    pub fn children(&self, entity: Entity) -> (children: Option<&Vec<Entity>>)
        ensures
            children is Some <==> self@.contains(entity),
            children matches Some(list) ==> list@ == self@.children[entity.index as int],
    {
        if entity.index < self.slots.len() {
            Some(&self.slots[entity.index].children)
        } else {
            None
        }
    }

    /// The mesh that `handle` refers to, or `None` if it refers to none.
    pub fn mesh(&self, handle: MeshHandle) -> (mesh: Option<&MeshSource>)
        ensures
            mesh is Some <==> self@.has_mesh(handle),
            mesh matches Some(source) ==> source@ == self@.meshes[handle.index as int],
    {
        if handle.index < self.meshes.len() {
            Some(&self.meshes[handle.index])
        } else {
            None
        }
    }

    /// The colour of the material that `handle` refers to, or `None` if it
    /// refers to none.
    pub fn material(&self, handle: MaterialHandle) -> (color: Option<Color>)
        ensures
            color == if self@.has_material(handle) {
                Some(self@.materials[handle.index as int])
            } else {
                None
            },
    {
        if handle.index < self.materials.len() {
            Some(self.materials[handle.index])
        } else {
            None
        }
    }

    /// Creates an entity without parent and returns it.
    pub fn spawn(&mut self, transform: Transform, content: Content) -> (entity: Entity)
        ensures
            final(self)@ == old(self)@.with_root(transform, content),
            entity.index == old(self)@.nodes.len(),
            final(self)@.contains(entity),
            old(self)@.wf() && old(self)@.resolves(content) ==> final(self)@.wf(),
    {
        let entity = Entity { index: self.slots.len() };
        self.slots.push(Slot { node: Node { transform, content, parent: None }, children: Vec::new() });
        proof {
            let next = old(self)@.with_root(transform, content);
            assert(self@.nodes =~= next.nodes);
            assert(self@.children =~~= next.children);
            assert(self@.meshes =~= next.meshes);
            if old(self)@.wf() && old(self)@.resolves(content) {
                assert(self.slots@.len() == self.slots.len());
                lemma_with_root_wf(old(self)@, transform, content);
            }
        }
        entity
    }

    /// Creates an entity, attaches it to `parent` as its last child and
    /// returns it.
    pub fn spawn_child(&mut self, parent: Entity, transform: Transform, content: Content) -> (entity:
        Entity)
        requires
            old(self)@.contains(parent),
        ensures
            final(self)@ == old(self)@.with_child(parent, transform, content),
            entity.index == old(self)@.nodes.len(),
            final(self)@.contains(entity),
            old(self)@.wf() && old(self)@.resolves(content) ==> final(self)@.wf(),
    {
        let entity = Entity { index: self.slots.len() };
        self.slots[parent.index].children.push(entity);
        self.slots.push(
            Slot { node: Node { transform, content, parent: Some(parent) }, children: Vec::new() },
        );
        proof {
            let next = old(self)@.with_child(parent, transform, content);
            assert(self@.nodes =~= next.nodes);
            assert(self@.children =~~= next.children);
            assert(self@.meshes =~= next.meshes);
            if old(self)@.wf() && old(self)@.resolves(content) {
                assert(self.slots@.len() == self.slots.len());
                lemma_with_child_wf(old(self)@, parent, transform, content);
            }
        }
        entity
    }
}

/// A new parentless entity whose handles resolve leaves a well-formed scene
/// well formed.
pub proof fn lemma_with_root_wf(scene: SceneView, transform: Transform, content: Content)
    requires
        scene.wf(),
        scene.nodes.len() < usize::MAX,
        scene.resolves(content),
    ensures
        scene.with_root(transform, content).wf(),
{
    let next = scene.with_root(transform, content);
    assert forall|i: int| 0 <= i < next.nodes.len() implies #[trigger] next.node_wf(i) by {
        if i < scene.nodes.len() {
            assert(scene.node_wf(i));
        }
    }
    assert forall|p: int, k: int|
        0 <= p < next.children.len() && 0 <= k < next.children[p].len() implies #[trigger] next.edge_wf(
        p,
        k,
    ) by {
        assert(scene.edge_wf(p, k));
    }
}

/// A new child of an entity of the scene, with handles that resolve, leaves
/// a well-formed scene well formed.
pub proof fn lemma_with_child_wf(
    scene: SceneView,
    parent: Entity,
    transform: Transform,
    content: Content,
)
    requires
        scene.wf(),
        scene.nodes.len() < usize::MAX,
        scene.contains(parent),
        scene.resolves(content),
    ensures
        scene.with_child(parent, transform, content).wf(),
{
    let next = scene.with_child(parent, transform, content);
    let n = scene.nodes.len() as int;
    let q = parent.index as int;
    let child = Entity { index: n as usize };
    assert(next.children[q] == scene.children[q].push(child));
    assert forall|i: int| 0 <= i < next.nodes.len() implies #[trigger] next.node_wf(i) by {
        if i < n {
            assert(scene.node_wf(i));
            if let Some(p) = scene.nodes[i].parent {
                let me = Entity { index: i as usize };
                let k = choose|k: int|
                    0 <= k < scene.children[p.index as int].len() && scene.children[p.index as int][k]
                        == me;
                assert(next.children[p.index as int][k] == me);
            }
        } else {
            assert(next.children[q][scene.children[q].len() as int] == child);
        }
    }
    assert forall|p: int, k: int|
        0 <= p < next.children.len() && 0 <= k < next.children[p].len() implies #[trigger] next.edge_wf(
        p,
        k,
    ) by {
        if p == n {
        } else if p == q && k == scene.children[q].len() {
            assert(next.children[p][k] == child);
            assert(Entity { index: p as usize } == parent);
        } else {
            assert(scene.edge_wf(p, k));
            let c = next.children[p][k];
            assert(c == scene.children[p][k]);
            assert(next.nodes[c.index as int] == scene.nodes[c.index as int]);
            assert forall|l: int| k < l < next.children[p].len() implies c.index < (
            #[trigger] next.children[p][l]).index by {
                if p == q && l == scene.children[q].len() {
                    assert(next.children[p][l] == child);
                } else {
                    assert(next.children[p][l] == scene.children[p][l]);
                }
            }
        }
    }
}

/// An asset found in the first `n` meshes is found at the same place in the
/// whole table.
pub proof fn lemma_first_asset_prefix(meshes: Seq<MeshView>, path: Seq<char>, n: int)
    requires
        0 <= n <= meshes.len(),
        first_asset(meshes.take(n), path) < n,
    ensures
        first_asset(meshes, path) == first_asset(meshes.take(n), path),
    decreases meshes.len() - n,
{
    if n < meshes.len() {
        assert(meshes.take(n + 1).drop_last() =~= meshes.take(n));
        lemma_first_asset_prefix(meshes, path, n + 1);
    } else {
        assert(meshes.take(n) =~= meshes);
    }
}

/// A new plane leaves a well-formed scene well formed.
pub proof fn lemma_with_plane_wf(scene: SceneView, size: i32)
    requires
        scene.wf(),
        scene.meshes.len() < usize::MAX,
    ensures
        scene.with_plane(size).wf(),
{
    let next = scene.with_plane(size);
    assert forall|i: int| 0 <= i < next.nodes.len() implies #[trigger] next.node_wf(i) by {
        assert(scene.node_wf(i));
    }
    assert forall|p: int, k: int|
        0 <= p < next.children.len() && 0 <= k < next.children[p].len() implies #[trigger] next.edge_wf(
        p,
        k,
    ) by {
        assert(scene.edge_wf(p, k));
    }
    assert forall|i: int, j: int|
        0 <= i < j < next.meshes.len() && (#[trigger] next.meshes[i]) is Asset implies next.meshes[i]
        != #[trigger] next.meshes[j] by {
        if j < scene.meshes.len() {
            assert(scene.meshes[i] != scene.meshes[j]);
        }
    }
}

/// Finding or adding an asset leaves a well-formed scene well formed.
pub proof fn lemma_with_asset_wf(scene: SceneView, path: Seq<char>)
    requires
        scene.wf(),
        scene.meshes.len() < usize::MAX,
    ensures
        scene.with_asset(path).wf(),
{
    let next = scene.with_asset(path);
    lemma_first_asset(scene.meshes, path);
    assert forall|i: int| 0 <= i < next.nodes.len() implies #[trigger] next.node_wf(i) by {
        assert(scene.node_wf(i));
    }
    assert forall|p: int, k: int|
        0 <= p < next.children.len() && 0 <= k < next.children[p].len() implies #[trigger] next.edge_wf(
        p,
        k,
    ) by {
        assert(scene.edge_wf(p, k));
    }
    assert forall|i: int, j: int|
        0 <= i < j < next.meshes.len() && (#[trigger] next.meshes[i]) is Asset implies next.meshes[i]
        != #[trigger] next.meshes[j] by {
        if j < scene.meshes.len() {
            assert(scene.meshes[i] != scene.meshes[j]);
        } else {
            assert(scene.meshes[i] != (MeshView::Asset { path }));
        }
    }
}

/// Finding or adding an asset changes nothing but the mesh table, keeps the
/// entries the table had, and leaves the asset with an entry.
pub proof fn lemma_with_asset_frame(scene: SceneView, path: Seq<char>)
    ensures
        scene.with_asset(path).nodes == scene.nodes,
        scene.with_asset(path).children == scene.children,
        scene.with_asset(path).materials == scene.materials,
        scene.meshes.len() <= scene.with_asset(path).meshes.len() <= scene.meshes.len() + 1,
        forall|i: int|
            0 <= i < scene.meshes.len() ==> scene.with_asset(path).meshes[i] == scene.meshes[i],
        scene.with_asset(path).has_asset(path),
        scene.with_asset(path).asset_handle(path) == scene.asset_handle(path),
{
    lemma_first_asset(scene.meshes, path);
    let next = scene.with_asset(path);
    if next.meshes.len() > scene.meshes.len() {
        assert(next.meshes.drop_last() =~= scene.meshes);
    }
}

/// Finding or adding an asset keeps the handle of every asset that had one.
pub proof fn lemma_with_asset_stable(scene: SceneView, path: Seq<char>, other: Seq<char>)
    requires
        scene.has_asset(other),
    ensures
        scene.with_asset(path).has_asset(other),
        scene.with_asset(path).asset_handle(other) == scene.asset_handle(other),
{
    let next = scene.with_asset(path);
    if next.meshes.len() > scene.meshes.len() {
        assert(next.meshes.drop_last() =~= scene.meshes);
    }
}

/// A new material leaves a well-formed scene well formed.
pub proof fn lemma_with_material_wf(scene: SceneView, color: Color)
    requires
        scene.wf(),
        scene.materials.len() < usize::MAX,
    ensures
        scene.with_material(color).wf(),
{
    let next = scene.with_material(color);
    assert forall|i: int| 0 <= i < next.nodes.len() implies #[trigger] next.node_wf(i) by {
        assert(scene.node_wf(i));
    }
    assert forall|p: int, k: int|
        0 <= p < next.children.len() && 0 <= k < next.children[p].len() implies #[trigger] next.edge_wf(
        p,
        k,
    ) by {
        assert(scene.edge_wf(p, k));
    }
}

} // verus!


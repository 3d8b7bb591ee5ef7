//! Chess pieces: which meshes make up a piece, and how a piece is put into a
//! scene.

use vstd::prelude::*;
use crate::geometry::{Transform, Vec3};
use crate::scene::{Content, Entity, MaterialHandle, MeshHandle, MeshView, Node, Scene, SceneView};
use crate::scene::{extends, lemma_first_asset, lemma_with_asset_frame, lemma_with_asset_stable};
use crate::scene::lemma_with_asset_wf;

verus! {

/// The six kinds of chess piece.
#[derive(Clone, Copy, Debug, PartialEq, Eq, Hash, Structural)]
pub enum Pieces {
    Queen,
    Bishop,
    Rook,
    Pawn,
    King,
    Knight,
}

/// The two materials shared by all pieces of one colour.
#[derive(Clone, Copy, Debug, PartialEq, Eq)]
pub struct PieceColorMaterial {
    pub black: MaterialHandle,
    pub white: MaterialHandle,
}

/// A kind of piece together with the material it is drawn with.
#[derive(Clone, Copy, Debug, PartialEq, Eq)]
pub struct ChessPiece {
    pub piece: Pieces,
    pub color_material: MaterialHandle,
}

/// Scale of every piece mesh relative to its parent, per axis.
pub const PIECE_SCALE: i32 = 20;

/// The meshes that make up a piece of the given kind, as parts of the model
/// file, in the order in which they are attached.
pub open spec fn mesh_paths(piece: Pieces) -> Seq<Seq<char>> {
    match piece {
        Pieces::Queen => seq!["models/chess_kit/pieces.glb#Mesh7/Primitive0"@],
        Pieces::Bishop => seq!["models/chess_kit/pieces.glb#Mesh6/Primitive0"@],
        Pieces::Rook => seq!["models/chess_kit/pieces.glb#Mesh5/Primitive0"@],
        Pieces::Pawn => seq!["models/chess_kit/pieces.glb#Mesh2/Primitive0"@],
        Pieces::King => seq![
            "models/chess_kit/pieces.glb#Mesh0/Primitive0"@,
            "models/chess_kit/pieces.glb#Mesh1/Primitive0"@,
        ],
        Pieces::Knight => seq![
            "models/chess_kit/pieces.glb#Mesh3/Primitive0"@,
            "models/chess_kit/pieces.glb#Mesh4/Primitive0"@,
        ],
    }
}

/// Number of meshes that make up a piece of the given kind.
pub open spec fn mesh_count(piece: Pieces) -> nat {
    match piece {
        Pieces::King | Pieces::Knight => 2,
        _ => 1,
    }
}

/// No mesh belongs to two kinds of piece, or twice to one: the paths of
/// `mesh_paths` are all different.
pub proof fn lemma_mesh_paths_distinct(a: Pieces, i: int, b: Pieces, j: int)
    requires
        0 <= i < mesh_count(a),
        0 <= j < mesh_count(b),
        a != b || i != j,
    ensures
        mesh_paths(a)[i] != mesh_paths(b)[j],
{
    reveal_strlit("models/chess_kit/pieces.glb#Mesh0/Primitive0");
    reveal_strlit("models/chess_kit/pieces.glb#Mesh1/Primitive0");
    reveal_strlit("models/chess_kit/pieces.glb#Mesh2/Primitive0");
    reveal_strlit("models/chess_kit/pieces.glb#Mesh3/Primitive0");
    reveal_strlit("models/chess_kit/pieces.glb#Mesh4/Primitive0");
    reveal_strlit("models/chess_kit/pieces.glb#Mesh5/Primitive0");
    reveal_strlit("models/chess_kit/pieces.glb#Mesh6/Primitive0");
    reveal_strlit("models/chess_kit/pieces.glb#Mesh7/Primitive0");
    assert(mesh_paths(a)[i][32] != mesh_paths(b)[j][32]);
}

/// The scene once every asset of `paths` has an entry in the mesh table.
pub open spec fn load_all(scene: SceneView, paths: Seq<Seq<char>>) -> SceneView
    decreases paths.len(),
{
    if paths.len() == 0 {
        scene
    } else {
        load_all(scene, paths.drop_last()).with_asset(paths.last())
    }
}

/// The handles of the assets `paths`, once all of them have an entry in the
/// mesh table of `scene`.
pub open spec fn handles_of(scene: SceneView, paths: Seq<Seq<char>>) -> Seq<MeshHandle> {
    Seq::new(paths.len(), |m: int| load_all(scene, paths).asset_handle(paths[m]))
}

/// Transform of a piece mesh relative to the piece: moved by `offset` and
/// shrunk to a fifth in every axis.
pub open spec fn mesh_transform(offset: Vec3) -> Transform {
    Transform::spec_from_translation(offset).spec_scaled(Vec3 { x: 20, y: 20, z: 20 })
}

/// The scene once one child per mesh of `meshes` has been attached to
/// `parent`, each with the given transform and material.
pub open spec fn attach_all(
    scene: SceneView,
    parent: Entity,
    transform: Transform,
    material: MaterialHandle,
    meshes: Seq<MeshHandle>,
) -> SceneView
    decreases meshes.len(),
{
    if meshes.len() == 0 {
        scene
    } else {
        attach_all(scene, parent, transform, material, meshes.drop_last()).with_child(
            parent,
            transform,
            Content::Model { mesh: Some(meshes.last()), material: Some(material) },
        )
    }
}

/// The scene once `piece` has been put at `position`: the assets of the
/// piece have entries in the mesh table, a new entity without parent and
/// without mesh stands at `position`, and it has one child per mesh of the
/// piece, at `offset` from it.
pub open spec fn piece_spawned(
    scene: SceneView,
    piece: ChessPiece,
    position: Vec3,
    offset: Vec3,
) -> SceneView {
    let paths = mesh_paths(piece.piece);
    let loaded = load_all(scene, paths);
    let parent = Entity { index: scene.nodes.len() as usize };
    attach_all(
        loaded.with_root(
            Transform::spec_from_translation(position),
            Content::Model { mesh: None, material: None },
        ),
        parent,
        mesh_transform(offset),
        piece.color_material,
        handles_of(scene, paths),
    )
}

/// Once the `m`-th path has been loaded, loading further paths keeps its
/// handle.
pub proof fn lemma_load_prefix(scene: SceneView, paths: Seq<Seq<char>>, m: int, n: int)
    requires
        0 <= m < n <= paths.len(),
    ensures
        load_all(scene, paths.take(n)).has_asset(paths[m]),
        load_all(scene, paths.take(n)).asset_handle(paths[m]) == load_all(
            scene,
            paths.take(m + 1),
        ).asset_handle(paths[m]),
    decreases n - m,
{
    let before = load_all(scene, paths.take(n - 1));
    assert(paths.take(n).drop_last() =~= paths.take(n - 1));
    assert(paths.take(n).last() == paths[n - 1]);
    assert(load_all(scene, paths.take(n)) == before.with_asset(paths[n - 1]));
    if n > m + 1 {
        lemma_load_prefix(scene, paths, m, n - 1);
        lemma_with_asset_stable(before, paths[n - 1], paths[m]);
    } else {
        lemma_with_asset_frame(before, paths[m]);
    }
}

/// `load_all` changes nothing but the mesh table and only adds to it.
/// Afterwards `handles_of` names, for each path, the entry that holds it.
pub proof fn lemma_load_all(scene: SceneView, paths: Seq<Seq<char>>)
    ensures
        load_all(scene, paths).nodes == scene.nodes,
        load_all(scene, paths).children == scene.children,
        load_all(scene, paths).materials == scene.materials,
        scene.meshes.len() <= load_all(scene, paths).meshes.len() <= scene.meshes.len()
            + paths.len(),
        forall|i: int|
            0 <= i < scene.meshes.len() ==> load_all(scene, paths).meshes[i] == scene.meshes[i],
        handles_of(scene, paths).len() == paths.len(),
        load_all(scene, paths).meshes.len() <= usize::MAX ==> forall|m: int|
            0 <= m < paths.len() ==> {
                let handle = #[trigger] handles_of(scene, paths)[m];
                &&& handle.index < load_all(scene, paths).meshes.len()
                &&& load_all(scene, paths).meshes[handle.index as int] == (MeshView::Asset {
                    path: paths[m],
                })
            },
        scene.wf() && scene.meshes.len() + paths.len() <= usize::MAX ==> load_all(
            scene,
            paths,
        ).wf(),
    decreases paths.len(),
{
    let after = load_all(scene, paths);
    if paths.len() > 0 {
        let before = load_all(scene, paths.drop_last());
        lemma_load_all(scene, paths.drop_last());
        lemma_with_asset_frame(before, paths.last());
        if scene.wf() && scene.meshes.len() + paths.len() <= usize::MAX {
            lemma_with_asset_wf(before, paths.last());
        }
    }
    if after.meshes.len() <= usize::MAX {
        assert forall|m: int| 0 <= m < paths.len() implies {
            let handle = #[trigger] handles_of(scene, paths)[m];
            &&& handle.index < after.meshes.len()
            &&& after.meshes[handle.index as int] == (MeshView::Asset { path: paths[m] })
        } by {
            assert(paths.take(paths.len() as int) =~= paths);
            lemma_load_prefix(scene, paths, m, paths.len() as int);
            lemma_first_asset(after.meshes, paths[m]);
            assert(handles_of(scene, paths)[m] == after.asset_handle(paths[m]));
        }
    }
}

/// Loading assets keeps the handle of every asset that had one.
pub proof fn lemma_load_all_stable(scene: SceneView, paths: Seq<Seq<char>>, other: Seq<char>)
    requires
        scene.has_asset(other),
    ensures
        load_all(scene, paths).has_asset(other),
        load_all(scene, paths).asset_handle(other) == scene.asset_handle(other),
    decreases paths.len(),
{
    if paths.len() > 0 {
        lemma_load_all_stable(scene, paths.drop_last(), other);
        lemma_with_asset_stable(load_all(scene, paths.drop_last()), paths.last(), other);
    }
}

/// Whether the entity at index `root` of `scene` is `piece`, standing at
/// `position` with its meshes at `offset`: the entity has no parent and no
/// mesh of its own, and its children are the entities right behind it, one
/// per mesh of the piece and in the order of `mesh_paths`, each without
/// children, shrunk to a fifth and drawn with the material of the piece.
pub open spec fn piece_at(
    scene: SceneView,
    root: int,
    piece: ChessPiece,
    position: Vec3,
    offset: Vec3,
) -> bool {
    let count = mesh_count(piece.piece) as int;
    &&& 0 <= root
    &&& root + count < scene.nodes.len()
    &&& scene.nodes.len() == scene.children.len()
    &&& scene.nodes[root] == (Node {
        transform: Transform::spec_from_translation(position),
        content: Content::Model { mesh: None, material: None },
        parent: None,
    })
    &&& scene.children[root].len() == count
    &&& forall|m: int| 0 <= m < count ==> #[trigger] mesh_at(scene, root, m, piece, offset)
}

/// Whether the `m`-th child of the entity at index `root` is the `m`-th
/// mesh of `piece`, at `offset` from its parent.
pub open spec fn mesh_at(scene: SceneView, root: int, m: int, piece: ChessPiece, offset: Vec3) -> bool {
    let child = scene.children[root][m];
    let node = scene.nodes[child.index as int];
    &&& child.index == root + 1 + m
    &&& node.parent == Some(Entity { index: root as usize })
    &&& node.transform == mesh_transform(offset)
    &&& scene.children[child.index as int].len() == 0
    &&& node.content matches Content::Model { mesh: Some(mesh), material: Some(material) }
    &&& material == piece.color_material
    &&& scene.has_mesh(mesh)
    &&& scene.meshes[mesh.index as int] == (MeshView::Asset { path: mesh_paths(piece.piece)[m] })
}

/// A piece stays where it stands when the scene grows at the end.
pub proof fn lemma_piece_at_extends(
    before: SceneView,
    after: SceneView,
    root: int,
    piece: ChessPiece,
    position: Vec3,
    offset: Vec3,
)
    requires
        piece_at(before, root, piece, position, offset),
        extends(before, after),
        after.nodes.len() == after.children.len(),
    ensures
        piece_at(after, root, piece, position, offset),
{
    assert(after.nodes[root] == before.nodes[root]);
    assert(after.children[root] == before.children[root]);
    assert forall|m: int| 0 <= m < mesh_count(piece.piece) implies #[trigger] mesh_at(
        after,
        root,
        m,
        piece,
        offset,
    ) by {
        assert(mesh_at(before, root, m, piece, offset));
        let child = before.children[root][m];
        assert(after.nodes[child.index as int] == before.nodes[child.index as int]);
        assert(after.children[child.index as int] == before.children[child.index as int]);
        if let Content::Model { mesh: Some(mesh), material: _ } = before.nodes[child.index as int].content {
            assert(after.meshes[mesh.index as int] == before.meshes[mesh.index as int]);
        }
    }
}

/// The mesh that the `m`-th child of the entity at index `root` shows.
pub open spec fn mesh_of(scene: SceneView, root: int, m: int) -> Option<MeshHandle> {
    match scene.nodes[scene.children[root][m].index as int].content {
        Content::Model { mesh, .. } => mesh,
        _ => None,
    }
}

/// Pieces of one kind share their meshes: where two pieces of one kind
/// stand in a well-formed scene, the `m`-th mesh of the one is the `m`-th
/// mesh of the other.
pub proof fn lemma_pieces_share_meshes(
    scene: SceneView,
    root: int,
    piece: ChessPiece,
    position: Vec3,
    offset: Vec3,
    other_root: int,
    other: ChessPiece,
    other_position: Vec3,
    other_offset: Vec3,
    m: int,
)
    requires
        scene.wf(),
        piece_at(scene, root, piece, position, offset),
        piece_at(scene, other_root, other, other_position, other_offset),
        piece.piece == other.piece,
        0 <= m < mesh_count(piece.piece),
    ensures
        mesh_of(scene, root, m) is Some,
        mesh_of(scene, root, m) == mesh_of(scene, other_root, m),
{
    assert(mesh_at(scene, root, m, piece, offset));
    assert(mesh_at(scene, other_root, m, other, other_offset));
    let mine = mesh_of(scene, root, m)->0;
    let theirs = mesh_of(scene, other_root, m)->0;
    assert(scene.meshes[mine.index as int] == scene.meshes[theirs.index as int]);
    assert(scene.meshes[mine.index as int] is Asset);
    if mine.index < theirs.index {
        assert(scene.meshes[mine.index as int] != scene.meshes[theirs.index as int]);
    } else if theirs.index < mine.index {
        assert(scene.meshes[theirs.index as int] != scene.meshes[mine.index as int]);
    }
}

/// What `attach_all` does: it adds one entity per mesh, in order, each a
/// child of `parent` without children of its own, and touches nothing else.
pub proof fn lemma_attach_all(
    scene: SceneView,
    parent: Entity,
    transform: Transform,
    material: MaterialHandle,
    meshes: Seq<MeshHandle>,
)
    requires
        scene.contains(parent),
        scene.children.len() == scene.nodes.len(),
        scene.nodes.len() + meshes.len() <= usize::MAX,
    ensures
        ({
            let after = attach_all(scene, parent, transform, material, meshes);
            let first = scene.nodes.len() as int;
            let p = parent.index as int;
            &&& after.nodes.len() == first + meshes.len()
            &&& after.children.len() == after.nodes.len()
            &&& after.meshes == scene.meshes
            &&& after.materials == scene.materials
            &&& forall|i: int| 0 <= i < first ==> #[trigger] after.nodes[i] == scene.nodes[i]
            &&& forall|i: int|
                0 <= i < first && i != p ==> #[trigger] after.children[i] == scene.children[i]
            &&& after.children[p].len() == scene.children[p].len() + meshes.len()
            &&& forall|k: int|
                0 <= k < scene.children[p].len() ==> #[trigger] after.children[p][k]
                    == scene.children[p][k]
            &&& forall|m: int|
                0 <= m < meshes.len() ==> {
                    &&& (#[trigger] after.children[p][scene.children[p].len() + m]).index == first
                        + m
                    &&& after.nodes[first + m] == (Node {
                        transform,
                        content: Content::Model { mesh: Some(meshes[m]), material: Some(material) },
                        parent: Some(parent),
                    })
                    &&& after.children[first + m].len() == 0
                }
        }),
    decreases meshes.len(),
{
    if meshes.len() > 0 {
        lemma_attach_all(scene, parent, transform, material, meshes.drop_last());
        let before = attach_all(scene, parent, transform, material, meshes.drop_last());
        let after = attach_all(scene, parent, transform, material, meshes);
        let first = scene.nodes.len() as int;
        let p = parent.index as int;
        let last = meshes.len() - 1;
        assert(after == before.with_child(
            parent,
            transform,
            Content::Model { mesh: Some(meshes.last()), material: Some(material) },
        ));
        assert forall|m: int| 0 <= m < meshes.len() implies {
            &&& (#[trigger] after.children[p][scene.children[p].len() + m]).index == first + m
            &&& after.nodes[first + m] == (Node {
                transform,
                content: Content::Model { mesh: Some(meshes[m]), material: Some(material) },
                parent: Some(parent),
            })
            &&& after.children[first + m].len() == 0
        } by {
            if m < last {
                assert(meshes.drop_last()[m] == meshes[m]);
                assert(before.children[p][scene.children[p].len() + m].index == first + m);
                assert(after.nodes[first + m] == before.nodes[first + m]);
            }
        }
    }
}

/// What `piece_spawned` does: it leaves everything in place that the scene
/// held, and the new piece stands at the first free index.
pub proof fn lemma_piece_spawned(scene: SceneView, piece: ChessPiece, position: Vec3, offset: Vec3)
    requires
        scene.children.len() == scene.nodes.len(),
        scene.nodes.len() + 1 + mesh_count(piece.piece) <= usize::MAX,
        load_all(scene, mesh_paths(piece.piece)).meshes.len() <= usize::MAX,
    ensures
        ({
            let after = piece_spawned(scene, piece, position, offset);
            &&& extends(scene, after)
            &&& after.nodes.len() == scene.nodes.len() + 1 + mesh_count(piece.piece)
            &&& after.children.len() == after.nodes.len()
            &&& after.materials == scene.materials
            &&& after.meshes == load_all(scene, mesh_paths(piece.piece)).meshes
            &&& piece_at(after, scene.nodes.len() as int, piece, position, offset)
        }),
{
    let paths = mesh_paths(piece.piece);
    let loaded = load_all(scene, paths);
    let root = scene.nodes.len() as int;
    let parent = Entity { index: root as usize };
    let rooted = loaded.with_root(
        Transform::spec_from_translation(position),
        Content::Model { mesh: None, material: None },
    );
    let handles = handles_of(scene, paths);
    let after = piece_spawned(scene, piece, position, offset);
    lemma_load_all(scene, paths);
    lemma_attach_all(rooted, parent, mesh_transform(offset), piece.color_material, handles);
    assert(rooted.children[root].len() == 0);
    assert forall|i: int| 0 <= i < scene.children.len() implies #[trigger] after.children[i]
        == scene.children[i] by {
        assert(rooted.children[i] == scene.children[i]);
    }
    assert forall|i: int| 0 <= i < scene.nodes.len() implies #[trigger] after.nodes[i]
        == scene.nodes[i] by {
        assert(rooted.nodes[i] == scene.nodes[i]);
    }
    assert(after.nodes[root] == rooted.nodes[root]);
    assert forall|m: int| 0 <= m < mesh_count(piece.piece) implies #[trigger] mesh_at(
        after,
        root,
        m,
        piece,
        offset,
    ) by {
        assert(after.children[root][rooted.children[root].len() + m].index == root + 1 + m);
        let handle = handles[m];
        assert(loaded.meshes[handle.index as int] == (MeshView::Asset { path: paths[m] }));
    }
}

impl ChessPiece {
    /// Makes sure that the meshes of this kind of piece are in the mesh table
    /// of `scene` and returns their handles, in the order of `mesh_paths`.
    /// Meshes that the table holds already are found, not added again.
    pub fn get_asset(&self, scene: &mut Scene) -> (meshes: Vec<MeshHandle>)
        ensures
            final(scene)@ == load_all(old(scene)@, mesh_paths(self.piece)),
            meshes@ == handles_of(old(scene)@, mesh_paths(self.piece)),
            meshes@.len() == mesh_count(self.piece),
            forall|m: int|
                0 <= m < meshes@.len() ==> {
                    &&& final(scene)@.has_mesh(#[trigger] meshes@[m])
                    &&& final(scene)@.meshes[meshes@[m].index as int] == (MeshView::Asset {
                        path: mesh_paths(self.piece)[m],
                    })
                },
            final(scene)@.nodes == old(scene)@.nodes,
            final(scene)@.children == old(scene)@.children,
            final(scene)@.materials == old(scene)@.materials,
            old(scene)@.wf() ==> final(scene)@.wf(),
    {
        let ghost paths = mesh_paths(self.piece);
        let ghost start = scene@;
        proof {
            assert(load_all(start, paths.take(0)) == start);
        }
        let meshes = match self.piece {
            Pieces::Queen => {
                let queen_handle = Self::load_next(
                    scene,
                    "models/chess_kit/pieces.glb#Mesh7/Primitive0",
                    Ghost(start),
                    Ghost(paths),
                    Ghost(0),
                );
                vec![queen_handle]
            },
            Pieces::Bishop => {
                let bishop_handle = Self::load_next(
                    scene,
                    "models/chess_kit/pieces.glb#Mesh6/Primitive0",
                    Ghost(start),
                    Ghost(paths),
                    Ghost(0),
                );
                vec![bishop_handle]
            },
            Pieces::Rook => {
                let rook_handle = Self::load_next(
                    scene,
                    "models/chess_kit/pieces.glb#Mesh5/Primitive0",
                    Ghost(start),
                    Ghost(paths),
                    Ghost(0),
                );
                vec![rook_handle]
            },
            Pieces::Pawn => {
                let pawn_handle = Self::load_next(
                    scene,
                    "models/chess_kit/pieces.glb#Mesh2/Primitive0",
                    Ghost(start),
                    Ghost(paths),
                    Ghost(0),
                );
                vec![pawn_handle]
            },
            Pieces::King => {
                let king_handle = Self::load_next(
                    scene,
                    "models/chess_kit/pieces.glb#Mesh0/Primitive0",
                    Ghost(start),
                    Ghost(paths),
                    Ghost(0),
                );
                let king_cross_handle = Self::load_next(
                    scene,
                    "models/chess_kit/pieces.glb#Mesh1/Primitive0",
                    Ghost(start),
                    Ghost(paths),
                    Ghost(1),
                );
                vec![king_handle, king_cross_handle]
            },
            Pieces::Knight => {
                let knight_1_handle = Self::load_next(
                    scene,
                    "models/chess_kit/pieces.glb#Mesh3/Primitive0",
                    Ghost(start),
                    Ghost(paths),
                    Ghost(0),
                );
                let knight_2_handle = Self::load_next(
                    scene,
                    "models/chess_kit/pieces.glb#Mesh4/Primitive0",
                    Ghost(start),
                    Ghost(paths),
                    Ghost(1),
                );
                vec![knight_1_handle, knight_2_handle]
            },
        };
        proof {
            assert(paths.take(paths.len() as int) =~= paths);
            scene.lemma_fits();
            lemma_load_all(start, paths);
            assert forall|m: int| 0 <= m < paths.len() implies meshes@[m] == handles_of(
                start,
                paths,
            )[m] by {
                lemma_load_prefix(start, paths, m, paths.len() as int);
            }
            assert(meshes@ =~= handles_of(start, paths));
            if start.wf() {
                assert(scene@.wf());
            }
        }
        meshes
    }

    /// Puts this piece into `scene` at `position`: creates one entity there,
    /// without mesh of its own, and attaches to it one child per mesh of the
    /// piece, moved by `transform`, shrunk by `PIECE_SCALE` and drawn with the
    /// material of the piece.
    pub fn spawn(&self, scene: &mut Scene, position: Vec3, transform: Vec3)
        ensures
            final(scene)@ == piece_spawned(old(scene)@, *self, position, transform),
            extends(old(scene)@, final(scene)@),
            piece_at(final(scene)@, old(scene)@.nodes.len() as int, *self, position, transform),
            final(scene)@.nodes.len() == old(scene)@.nodes.len() + 1 + mesh_count(self.piece),
            final(scene)@.materials == old(scene)@.materials,
            old(scene)@.wf() && old(scene)@.has_material(self.color_material)
                ==> final(scene)@.wf(),
    {
        let ghost start = scene@;
        proof {
            scene.lemma_fits();
        }
        let meshes = self.get_asset(scene);
        proof {
            scene.lemma_fits();
        }
        let parent = scene.spawn(
            Transform::from_translation(position),
            Content::Model { mesh: None, material: None },
        );
        let local = Transform::from_translation(transform).scaled(Vec3::splat(PIECE_SCALE));
        let material = self.color_material;
        let ghost rooted = scene@;
        let ghost sound = start.wf() && start.has_material(material);
        proof {
            assert(meshes@.take(0) =~= Seq::empty());
        }
        let mut i: usize = 0;
        while i < meshes.len()
            invariant
                i <= meshes.len(),
                rooted.contains(parent),
                scene@ == attach_all(rooted, parent, local, material, meshes@.take(i as int)),
                scene@.nodes.len() == rooted.nodes.len() + i,
                scene@.meshes == rooted.meshes,
                scene@.materials == rooted.materials,
                sound ==> scene@.wf() && scene@.has_material(material),
                sound ==> forall|m: int| 0 <= m < meshes@.len() ==> rooted.has_mesh(#[trigger] meshes@[m]),
            decreases meshes.len() - i,
        {
            let mesh = meshes[i];
            proof {
                assert(meshes@.take(i + 1).drop_last() =~= meshes@.take(i as int));
                assert(meshes@.take(i + 1).last() == mesh);
                assert(sound ==> rooted.has_mesh(meshes@[i as int]));
            }
            scene.spawn_child(
                parent,
                local,
                Content::Model { mesh: Some(mesh), material: Some(material) },
            );
            i += 1;
        }
        proof {
            assert(meshes@.take(i as int) =~= meshes@);
            scene.lemma_fits();
            lemma_piece_spawned(start, *self, position, transform);
        }
    }

    /// Loads the `m`-th path of `paths` into a scene that holds the first
    /// `m` of them.
    fn load_next(
        scene: &mut Scene,
        path: &str,
        Ghost(start): Ghost<SceneView>,
        Ghost(paths): Ghost<Seq<Seq<char>>>,
        Ghost(m): Ghost<int>,
    ) -> (handle: MeshHandle)
        requires
            0 <= m < paths.len(),
            path@ == paths[m],
            old(scene)@ == load_all(start, paths.take(m)),
            start.wf() ==> old(scene)@.wf(),
        ensures
            final(scene)@ == load_all(start, paths.take(m + 1)),
            handle == load_all(start, paths.take(m + 1)).asset_handle(paths[m]),
            final(scene)@.has_asset(paths[m]),
            start.wf() ==> final(scene)@.wf(),
    {
        let handle = scene.load_mesh(path);
        proof {
            assert(paths.take(m + 1).drop_last() =~= paths.take(m));
            assert(paths.take(m + 1).last() == paths[m]);
            lemma_with_asset_frame(old(scene)@, path@);
        }
        handle
    }
}

} // verus!

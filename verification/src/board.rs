//! The chequered board: 64 flat tiles in the plane Y = 0.

use vstd::prelude::*;
use crate::geometry::{Color, Transform, Vec3, UNIT};
use crate::scene::{Content, MaterialHandle, MeshHandle, MeshView, Node, Scene, SceneView};

verus! {

/// Number of rows, and of columns, of the board.
pub const BOARD_SIZE: u8 = 8;

/// Colour of the light tiles.
pub open spec fn light_tile_color() -> Color {
    Color { r: 100, g: 100, b: 100 }
}

/// Colour of the dark tiles.
pub open spec fn dark_tile_color() -> Color {
    Color { r: 0, g: 10, b: 10 }
}

/// Whether the tile in row `row` and column `column` is a light one.
pub open spec fn is_light(row: int, column: int) -> bool {
    (row + column + 1) % 2 == 0
}

/// The tile in row `row` and column `column`: an entity without parent at
/// the centre of that square, which shows the mesh `mesh` in the material
/// `light` or `dark`, whichever the square calls for.
pub open spec fn tile(
    row: int,
    column: int,
    mesh: MeshHandle,
    light: MaterialHandle,
    dark: MaterialHandle,
) -> Node {
    Node {
        transform: Transform::spec_from_translation(Vec3::square(row, column)),
        content: Content::Model {
            mesh: Some(mesh),
            material: Some(
                if is_light(row, column) {
                    light
                } else {
                    dark
                },
            ),
        },
        parent: None,
    }
}

/// The first `count` tiles of a board, row by row.
pub open spec fn tiles(
    count: int,
    mesh: MeshHandle,
    light: MaterialHandle,
    dark: MaterialHandle,
) -> Seq<Node> {
    Seq::new(count as nat, |k: int| tile(k / 8, k % 8, mesh, light, dark))
}

/// The scene with the materials and the mesh of a board, and with the first
/// `count` tiles of that board.
pub open spec fn board_begun(scene: SceneView, count: int) -> SceneView {
    let mesh = MeshHandle { index: scene.meshes.len() as usize };
    let light = MaterialHandle { index: scene.materials.len() as usize };
    let dark = MaterialHandle { index: (scene.materials.len() + 1) as usize };
    SceneView {
        nodes: scene.nodes + tiles(count, mesh, light, dark),
        children: scene.children + Seq::new(count as nat, |k: int| Seq::empty()),
        materials: scene.materials.push(light_tile_color()).push(dark_tile_color()),
        meshes: scene.meshes.push(MeshView::Plane { size: 100 }),
    }
}

/// The scene with one more board: a unit plane at the end of the mesh table,
/// the light and the dark material at the end of the material table, and 64
/// tiles at the end of the entities, row by row, all showing that one plane.
pub open spec fn board_built(scene: SceneView) -> SceneView {
    board_begun(scene, 64)
}

/// Index of the tile in row `row` and column `column` of a board whose
/// first tile has index `first`.
pub open spec fn tile_index(first: int, row: int, column: int) -> int {
    first + 8 * row + column
}

/// Whether the 64 entities of `scene` from index `first` on are a board:
/// each square has its tile, in the material its parity calls for, and no
/// other of the 64 stands on that square.
pub open spec fn is_board(
    scene: SceneView,
    first: int,
    mesh: MeshHandle,
    light: MaterialHandle,
    dark: MaterialHandle,
) -> bool {
    &&& 0 <= first
    &&& first + 64 <= scene.nodes.len()
    &&& forall|row: int, column: int|
        0 <= row < 8 && 0 <= column < 8 ==> {
            &&& (#[trigger] scene.nodes[tile_index(first, row, column)]) == tile(
                row,
                column,
                mesh,
                light,
                dark,
            )
            &&& forall|k: int|
                first <= k < first + 64 && (#[trigger] scene.nodes[k]).transform.translation
                    == Vec3::square(row, column) ==> k == tile_index(first, row, column)
        }
}

/// A scene to which a board was added holds a board, from the first index
/// that was free.
pub proof fn lemma_board_built(scene: SceneView)
    ensures
        board_built(scene).nodes.len() == scene.nodes.len() + 64,
        board_built(scene).meshes.len() == scene.meshes.len() + 1,
        board_built(scene).materials.len() == scene.materials.len() + 2,
        forall|i: int| 0 <= i < scene.nodes.len() ==> board_built(scene).nodes[i] == scene.nodes[i],
        is_board(
            board_built(scene),
            scene.nodes.len() as int,
            MeshHandle { index: scene.meshes.len() as usize },
            MaterialHandle { index: scene.materials.len() as usize },
            MaterialHandle { index: (scene.materials.len() + 1) as usize },
        ),
{
    let built = board_built(scene);
    let first = scene.nodes.len() as int;
    let mesh = MeshHandle { index: scene.meshes.len() as usize };
    let light = MaterialHandle { index: scene.materials.len() as usize };
    let dark = MaterialHandle { index: (scene.materials.len() + 1) as usize };
    assert forall|row: int, column: int| 0 <= row < 8 && 0 <= column < 8 implies {
        &&& (#[trigger] built.nodes[tile_index(first, row, column)]) == tile(
            row,
            column,
            mesh,
            light,
            dark,
        )
        &&& forall|k: int|
            first <= k < first + 64 && (#[trigger] built.nodes[k]).transform.translation
                == Vec3::square(row, column) ==> k == tile_index(first, row, column)
    } by {
        let at = 8 * row + column;
        assert(at / 8 == row && at % 8 == column);
        assert(built.nodes[first + at] == tiles(64, mesh, light, dark)[at]);
        assert forall|k: int|
            first <= k < first + 64 && (#[trigger] built.nodes[k]).transform.translation
                == Vec3::square(row, column) implies k == tile_index(first, row, column) by {
            let other = k - first;
            assert(built.nodes[k] == tiles(64, mesh, light, dark)[other]);
            assert(Vec3::square(other / 8, other % 8) == Vec3::square(row, column));
            assert(other / 8 == row && other % 8 == column);
        }
    }
}

/// The builder does not look for a board that is there: added twice, it
/// leaves two boards, one behind the other among the entities, and every
/// square carries two tiles.
pub proof fn lemma_board_twice(scene: SceneView)
    ensures
        ({
            let once = board_built(scene);
            let twice = board_built(once);
            let first = scene.nodes.len() as int;
            &&& twice.nodes.len() == scene.nodes.len() + 128
            &&& twice.meshes.len() == scene.meshes.len() + 2
            &&& twice.materials.len() == scene.materials.len() + 4
            &&& is_board(
                twice,
                first,
                MeshHandle { index: scene.meshes.len() as usize },
                MaterialHandle { index: scene.materials.len() as usize },
                MaterialHandle { index: (scene.materials.len() + 1) as usize },
            )
            &&& is_board(
                twice,
                first + 64,
                MeshHandle { index: once.meshes.len() as usize },
                MaterialHandle { index: once.materials.len() as usize },
                MaterialHandle { index: (once.materials.len() + 1) as usize },
            )
            &&& forall|row: int, column: int|
                0 <= row < 8 && 0 <= column < 8 ==> {
                    &&& (#[trigger] twice.nodes[tile_index(first, row, column)]).transform.translation
                        == Vec3::square(row, column)
                    &&& twice.nodes[tile_index(first + 64, row, column)].transform.translation
                        == Vec3::square(row, column)
                }
        }),
{
    let once = board_built(scene);
    let twice = board_built(once);
    let first = scene.nodes.len() as int;
    lemma_board_built(scene);
    lemma_board_built(once);
    assert forall|k: int| first <= k < first + 64 implies twice.nodes[k] == once.nodes[k] by {}
    assert forall|row: int, column: int| 0 <= row < 8 && 0 <= column < 8 implies {
        &&& (#[trigger] twice.nodes[tile_index(first, row, column)]).transform.translation
            == Vec3::square(row, column)
        &&& twice.nodes[tile_index(first + 64, row, column)].transform.translation == Vec3::square(
            row,
            column,
        )
    } by {
        let k = tile_index(first, row, column);
        assert(twice.nodes[k] == once.nodes[k]);
        assert(once.nodes[tile_index(first, row, column)].transform.translation == Vec3::square(
            row,
            column,
        ));
        assert(twice.nodes[tile_index(first + 64, row, column)].transform.translation
            == Vec3::square(row, column));
    }
}

/// Adds a board to `scene`: one unit plane, the light and the dark
/// material, and 64 tiles that share the three. Nothing is looked up or
/// reused, so a second call adds a second board on top of the first.
pub fn create_board(scene: &mut Scene)
    ensures
        final(scene)@ == board_built(old(scene)@),
        final(scene)@.nodes.len() == old(scene)@.nodes.len() + 64,
        is_board(
            final(scene)@,
            old(scene)@.nodes.len() as int,
            MeshHandle { index: old(scene)@.meshes.len() as usize },
            MaterialHandle { index: old(scene)@.materials.len() as usize },
            MaterialHandle { index: (old(scene)@.materials.len() + 1) as usize },
        ),
        old(scene)@.wf() ==> final(scene)@.wf(),
{
    let ghost start = scene@;
    let mesh = scene.add_plane(UNIT);
    let white_material = scene.add_material(Color::rgb(100, 100, 100));
    let black_material = scene.add_material(Color::rgb(0, 10, 10));
    proof {
        scene.lemma_fits();
        assert(scene@.nodes =~= board_begun(start, 0).nodes);
        assert(scene@.children =~= board_begun(start, 0).children);
    }
    let mut i: u8 = 0;
    while i < BOARD_SIZE
        invariant
            i <= 8,
            scene@ == board_begun(start, 8 * i),
            mesh.index == start.meshes.len(),
            white_material.index == start.materials.len(),
            black_material.index == start.materials.len() + 1,
            start.wf() ==> scene@.wf(),
        decreases 8 - i,
    {
        let mut j: u8 = 0;
        while j < BOARD_SIZE
            invariant
                i < 8,
                j <= 8,
                scene@ == board_begun(start, 8 * i + j),
                mesh.index == start.meshes.len(),
                white_material.index == start.materials.len(),
                black_material.index == start.materials.len() + 1,
                start.wf() ==> scene@.wf(),
            decreases 8 - j,
        {
            let material = if (i + j + 1) % 2 == 0 {
                white_material
            } else {
                black_material
            };
            let ghost before = scene@;
            scene.spawn(
                Transform::from_translation(Vec3::at_square(i, j)),
                Content::Model { mesh: Some(mesh), material: Some(material) },
            );
            proof {
                let at = 8 * i + j;
                let next = board_begun(start, at + 1);
                assert(at / 8 == i && at % 8 == j);
                assert(scene@.nodes =~= next.nodes);
                assert(scene@.children =~= next.children);
            }
            j += 1;
        }
        i += 1;
    }
    proof {
        lemma_board_built(start);
    }
}

} // verus!

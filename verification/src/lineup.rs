//! The opening position: which piece stands where, and the routine that
//! puts all 32 of them into a scene.

use vstd::prelude::*;
use crate::geometry::{Color, Vec3};
use crate::pieces::{lemma_piece_at_extends, mesh_at, mesh_count, piece_at, piece_spawned};
use crate::pieces::{ChessPiece, PieceColorMaterial, Pieces};
use crate::scene::{extends, Content, MaterialHandle, Scene, SceneView};

verus! {

/// One piece of a position: what it is, where it stands, and where its
/// meshes sit relative to that place.
#[derive(Clone, Copy, Debug, PartialEq, Eq)]
pub struct Placement {
    pub piece: ChessPiece,
    pub position: Vec3,
    pub offset: Vec3,
}

/// Colour of the black pieces.
pub open spec fn black_piece_color() -> Color {
    Color { r: 10, g: 10, b: 10 }
}

/// Colour of the white pieces.
pub open spec fn white_piece_color() -> Color {
    Color { r: 90, g: 90, b: 90 }
}

/// Where the meshes of a piece sit relative to the square it stands on. The
/// model file holds each mesh off centre, in its own way; these vectors put
/// it back onto the middle of the square.
pub open spec fn spec_mesh_offset(piece: Pieces) -> Vec3 {
    match piece {
        Pieces::Queen => Vec3 { x: -20i32, y: 0, z: -95i32 },
        Pieces::King => Vec3 { x: -20i32, y: 0, z: -190i32 },
        Pieces::Bishop => Vec3 { x: -10i32, y: 0, z: 0 },
        Pieces::Rook => Vec3 { x: -10i32, y: 0, z: 180 },
        Pieces::Knight => Vec3 { x: -20i32, y: 0, z: 90 },
        Pieces::Pawn => Vec3 { x: -20i32, y: 0, z: 260 },
    }
}

/// Where the meshes of a piece sit relative to the square it stands on.
#[verifier::when_used_as_spec(spec_mesh_offset)]
pub fn mesh_offset(piece: Pieces) -> (offset: Vec3)
    ensures
        offset == spec_mesh_offset(piece),
{
    match piece {
        Pieces::Queen => Vec3::new(-20, 0, -95),
        Pieces::King => Vec3::new(-20, 0, -190),
        Pieces::Bishop => Vec3::new(-10, 0, 0),
        Pieces::Rook => Vec3::new(-10, 0, 180),
        Pieces::Knight => Vec3::new(-20, 0, 90),
        Pieces::Pawn => Vec3::new(-20, 0, 260),
    }
}

/// Kind of the `m`-th piece of a side: queen, king, the bishops, the rooks,
/// the knights, then eight pawns.
pub open spec fn side_kind(m: int) -> Pieces {
    if m == 0 {
        Pieces::Queen
    } else if m == 1 {
        Pieces::King
    } else if m <= 3 {
        Pieces::Bishop
    } else if m <= 5 {
        Pieces::Rook
    } else if m <= 7 {
        Pieces::Knight
    } else {
        Pieces::Pawn
    }
}

/// Column of the `m`-th piece of a side.
pub open spec fn side_column(m: int) -> int {
    if m == 0 {
        3
    } else if m == 1 {
        4
    } else if m == 2 {
        2
    } else if m == 3 {
        5
    } else if m == 4 {
        0
    } else if m == 5 {
        7
    } else if m == 6 {
        1
    } else if m == 7 {
        6
    } else {
        m - 8
    }
}

/// The `m`-th piece of a side that draws its pieces with `color_material`,
/// keeps its pawns in row `pawn_row` and the other pieces in row `back_row`.
pub open spec fn side_piece(
    m: int,
    color_material: MaterialHandle,
    back_row: int,
    pawn_row: int,
) -> Placement {
    let row = if m < 8 {
        back_row
    } else {
        pawn_row
    };
    Placement {
        piece: ChessPiece { piece: side_kind(m), color_material },
        position: Vec3::square(row, side_column(m)),
        offset: spec_mesh_offset(side_kind(m)),
    }
}

/// The sixteen pieces of one side.
pub open spec fn side(color_material: MaterialHandle, back_row: int, pawn_row: int) -> Seq<
    Placement,
> {
    Seq::new(16, |m: int| side_piece(m, color_material, back_row, pawn_row))
}

/// The opening position: black on rows 7 and 6, then white on rows 0 and 1.
pub open spec fn lineup(material: PieceColorMaterial) -> Seq<Placement> {
    side(material.black, 7, 6) + side(material.white, 0, 1)
}

/// Appends the sixteen pieces of one side to `table`.
fn push_side(table: &mut Vec<Placement>, color_material: MaterialHandle, back_row: u8, pawn_row: u8)
    ensures
        final(table)@ == old(table)@ + side(color_material, back_row as int, pawn_row as int),
{
    let ghost all = side(color_material, back_row as int, pawn_row as int);
    let queen = ChessPiece { piece: Pieces::Queen, color_material };
    table.push(
        Placement {
            piece: queen,
            position: Vec3::at_square(back_row, 3),
            offset: mesh_offset(Pieces::Queen),
        },
    );
    let king = ChessPiece { piece: Pieces::King, color_material };
    table.push(
        Placement {
            piece: king,
            position: Vec3::at_square(back_row, 4),
            offset: mesh_offset(Pieces::King),
        },
    );
    let bishop = ChessPiece { piece: Pieces::Bishop, color_material };
    table.push(
        Placement {
            piece: bishop,
            position: Vec3::at_square(back_row, 2),
            offset: mesh_offset(Pieces::Bishop),
        },
    );
    table.push(
        Placement {
            piece: bishop,
            position: Vec3::at_square(back_row, 5),
            offset: mesh_offset(Pieces::Bishop),
        },
    );
    let rook = ChessPiece { piece: Pieces::Rook, color_material };
    table.push(
        Placement {
            piece: rook,
            position: Vec3::at_square(back_row, 0),
            offset: mesh_offset(Pieces::Rook),
        },
    );
    table.push(
        Placement {
            piece: rook,
            position: Vec3::at_square(back_row, 7),
            offset: mesh_offset(Pieces::Rook),
        },
    );
    let knight = ChessPiece { piece: Pieces::Knight, color_material };
    table.push(
        Placement {
            piece: knight,
            position: Vec3::at_square(back_row, 1),
            offset: mesh_offset(Pieces::Knight),
        },
    );
    table.push(
        Placement {
            piece: knight,
            position: Vec3::at_square(back_row, 6),
            offset: mesh_offset(Pieces::Knight),
        },
    );
    proof {
        assert(table@ =~= old(table)@ + all.take(8));
    }
    let pawn = ChessPiece { piece: Pieces::Pawn, color_material };
    let mut i: u8 = 0;
    while i < 8
        invariant
            i <= 8,
            pawn == (ChessPiece { piece: Pieces::Pawn, color_material }),
            all == side(color_material, back_row as int, pawn_row as int),
            table@ == old(table)@ + all.take(8 + i),
        decreases 8 - i,
    {
        table.push(
            Placement {
                piece: pawn,
                position: Vec3::at_square(pawn_row, i),
                offset: mesh_offset(Pieces::Pawn),
            },
        );
        proof {
            assert(table@ =~= old(table)@ + all.take(8 + i + 1));
        }
        i += 1;
    }
    proof {
        assert(all.take(16) =~= all);
    }
}

/// The opening position drawn with the two given materials.
pub fn starting_lineup(material: &PieceColorMaterial) -> (table: Vec<Placement>)
    ensures
        table@ == lineup(*material),
        table@.len() == 32,
{
    let mut table: Vec<Placement> = Vec::new();
    push_side(&mut table, material.black, 7, 6);
    push_side(&mut table, material.white, 0, 1);
    proof {
        assert(table@ =~= lineup(*material));
    }
    table
}

/// The scene once the pieces of `pieces` have been put into it, one after
/// the other.
pub open spec fn placed(scene: SceneView, pieces: Seq<Placement>) -> SceneView
    decreases pieces.len(),
{
    if pieces.len() == 0 {
        scene
    } else {
        let last = pieces.last();
        piece_spawned(placed(scene, pieces.drop_last()), last.piece, last.position, last.offset)
    }
}

/// Number of entities that the first `n` pieces of `pieces` take: one per
/// piece and one per mesh.
pub open spec fn entities_of(pieces: Seq<Placement>, n: int) -> int
    decreases n,
{
    if n <= 0 {
        0
    } else {
        entities_of(pieces, n - 1) + 1 + mesh_count(pieces[n - 1].piece.piece)
    }
}

/// Number of pieces among the first `n` of `pieces` that are of kind
/// `kind` and drawn with `color_material`.
pub open spec fn census(
    pieces: Seq<Placement>,
    n: int,
    kind: Pieces,
    color_material: MaterialHandle,
) -> int
    decreases n,
{
    if n <= 0 {
        0
    } else if pieces[n - 1].piece == (ChessPiece { piece: kind, color_material }) {
        census(pieces, n - 1, kind, color_material) + 1
    } else {
        census(pieces, n - 1, kind, color_material)
    }
}

/// The materials of the black and of the white pieces, in a scene that had
/// `count` materials before the two were added.
pub open spec fn piece_materials(count: nat) -> PieceColorMaterial {
    PieceColorMaterial {
        black: MaterialHandle { index: count as usize },
        white: MaterialHandle { index: (count + 1) as usize },
    }
}

/// The scene with the black and the white material at the end of the
/// material table and the 32 pieces of the opening position behind the
/// entities it had.
pub open spec fn pieces_created(scene: SceneView) -> SceneView {
    placed(
        scene.with_material(black_piece_color()).with_material(white_piece_color()),
        lineup(piece_materials(scene.materials.len())),
    )
}

/// Whether the entities of `scene` from index `first` on are the pieces of
/// `pieces`, each with its meshes, one piece behind the other.
pub open spec fn pieces_stand(scene: SceneView, first: int, pieces: Seq<Placement>) -> bool {
    forall|k: int|
        0 <= k < pieces.len() ==> piece_at(
            scene,
            first + entities_of(pieces, k),
            (#[trigger] pieces[k]).piece,
            pieces[k].position,
            pieces[k].offset,
        )
}

/// Puts the opening position into `scene`: adds the material of the black
/// and that of the white pieces, then the 32 pieces, black first. Pieces of
/// one kind share their meshes, pieces of one colour their material.
pub fn create_pieces(scene: &mut Scene)
    ensures
        final(scene)@ == pieces_created(old(scene)@),
        final(scene)@.nodes.len() == old(scene)@.nodes.len() + 70,
        final(scene)@.materials == old(scene)@.materials.push(black_piece_color()).push(
            white_piece_color(),
        ),
        extends(old(scene)@, final(scene)@),
        lineup(piece_materials(old(scene)@.materials.len())).len() == 32,
        pieces_stand(
            final(scene)@,
            old(scene)@.nodes.len() as int,
            lineup(piece_materials(old(scene)@.materials.len())),
        ),
        old(scene)@.wf() ==> final(scene)@.wf(),
{
    let ghost start = scene@;
    let black = scene.add_material(Color::rgb(10, 10, 10));
    let white = scene.add_material(Color::rgb(90, 90, 90));
    let material = PieceColorMaterial { black, white };
    let table = starting_lineup(&material);
    let ghost base = scene@;
    let ghost first = start.nodes.len() as int;
    proof {
        scene.lemma_fits();
        assert(material == piece_materials(start.materials.len()));
        assert(table@.take(0) =~= Seq::empty());
    }
    let mut i: usize = 0;
    while i < table.len()
        invariant
            i <= table.len(),
            table@ == lineup(material),
            base.nodes == start.nodes,
            base.children == start.children,
            base.meshes == start.meshes,
            base.materials.len() == start.materials.len() + 2,
            first == start.nodes.len(),
            material.black.index == start.materials.len(),
            material.white.index == start.materials.len() + 1,
            scene@ == placed(base, table@.take(i as int)),
            scene@.nodes.len() == first + entities_of(table@, i as int),
            scene@.materials == base.materials,
            extends(start, scene@),
            pieces_stand(scene@, first, table@.take(i as int)),
            start.wf() ==> scene@.wf(),
        decreases table.len() - i,
    {
        let next = table[i];
        let ghost before = scene@;
        proof {
            assert(table@.take(i + 1).drop_last() =~= table@.take(i as int));
            assert(table@.take(i + 1).last() == next);
            assert(next.piece.color_material == material.black || next.piece.color_material
                == material.white);
        }
        next.piece.spawn(scene, next.position, next.offset);
        proof {
            scene.lemma_fits();
            lemma_entities_of_prefix(table@, i as int + 1, i as int + 1);
            assert forall|k: int| 0 <= k < i + 1 implies piece_at(
                scene@,
                first + entities_of(table@.take(i + 1), k),
                (#[trigger] table@.take(i + 1)[k]).piece,
                table@.take(i + 1)[k].position,
                table@.take(i + 1)[k].offset,
            ) by {
                lemma_entities_of_prefix(table@, i as int + 1, k);
                if k < i {
                    lemma_entities_of_prefix(table@, i as int, k);
                    assert(table@.take(i as int)[k] == table@[k]);
                    lemma_piece_at_extends(
                        before,
                        scene@,
                        first + entities_of(table@, k),
                        table@[k].piece,
                        table@[k].position,
                        table@[k].offset,
                    );
                } else {
                    assert(before.nodes.len() == first + entities_of(table@, k));
                }
            }
        }
        i += 1;
    }
    proof {
        assert(table@.take(i as int) =~= table@);
        lemma_lineup_entities(material);
    }
}

/// The entities that the first `k` pieces take do not depend on the pieces
/// behind them.
pub proof fn lemma_entities_of_prefix(pieces: Seq<Placement>, n: int, k: int)
    requires
        0 <= k <= n <= pieces.len(),
    ensures
        entities_of(pieces.take(n), k) == entities_of(pieces, k),
    decreases k,
{
    if k > 0 {
        lemma_entities_of_prefix(pieces, n, k - 1);
    }
}

/// The opening position takes 70 entities: 32 pieces and 38 meshes.
pub proof fn lemma_lineup_entities(material: PieceColorMaterial)
    ensures
        lineup(material).len() == 32,
        entities_of(lineup(material), 32) == 70,
{
    reveal_with_fuel(entities_of, 33);
}

/// Number of pieces of kind `kind` that one side has in the opening
/// position.
pub open spec fn side_census(kind: Pieces) -> int {
    match kind {
        Pieces::Pawn => 8,
        Pieces::Rook | Pieces::Knight | Pieces::Bishop => 2,
        Pieces::Queen | Pieces::King => 1,
    }
}

/// The opening position has 32 pieces, and of each colour eight pawns, two
/// rooks, two knights, two bishops, one queen and one king.
pub proof fn lemma_lineup_census(material: PieceColorMaterial, kind: Pieces)
    requires
        material.black != material.white,
    ensures
        lineup(material).len() == 32,
        census(lineup(material), 32, kind, material.black) == side_census(kind),
        census(lineup(material), 32, kind, material.white) == side_census(kind),
{
    reveal_with_fuel(census, 33);
}

/// In the opening position every piece stands on a square of the board,
/// the black pieces on rows 6 and 7, the white pieces on rows 0 and 1, and
/// its meshes sit where its kind calls for.
pub proof fn lemma_lineup_sides(material: PieceColorMaterial, k: int)
    requires
        0 <= k < 32,
    ensures
        ({
            let placement = lineup(material)[k];
            let row = placement.position.x / 100;
            let column = placement.position.z / 100;
            &&& placement.position == Vec3::square(row, column)
            &&& 0 <= column < 8
            &&& row == 0 || row == 1 || row == 6 || row == 7
            &&& row >= 6 ==> placement.piece.color_material == material.black
            &&& row <= 1 ==> placement.piece.color_material == material.white
            &&& row == 1 || row == 6 <==> placement.piece.piece == Pieces::Pawn
            &&& placement.offset == spec_mesh_offset(placement.piece.piece)
        }),
{
}

/// In the opening position no two pieces stand on the same square.
pub proof fn lemma_lineup_squares(material: PieceColorMaterial, j: int, k: int)
    requires
        0 <= j < k < 32,
    ensures
        lineup(material)[j].position != lineup(material)[k].position,
{
}

/// Each piece takes entities of its own: the entities of a piece begin
/// behind those of the piece before it.
pub proof fn lemma_entities_of_increasing(pieces: Seq<Placement>, j: int, k: int)
    requires
        0 <= j < k,
    ensures
        entities_of(pieces, j) + 1 + mesh_count(pieces[j].piece.piece) <= entities_of(pieces, k),
    decreases k,
{
    if j < k - 1 {
        lemma_entities_of_increasing(pieces, j, k - 1);
    }
}

/// Where the pieces of the opening position stand in a scene, every mesh
/// of a black piece is drawn with the black material and every mesh of a
/// white piece with the white one; black are the pieces on rows 6 and 7,
/// white those on rows 0 and 1. A king and a knight have two meshes, every
/// other piece has one.
pub proof fn lemma_pieces_stand(
    scene: SceneView,
    first: int,
    material: PieceColorMaterial,
    k: int,
    m: int,
)
    requires
        pieces_stand(scene, first, lineup(material)),
        0 <= k < 32,
        0 <= m < mesh_count(lineup(material)[k].piece.piece),
    ensures
        ({
            let root = first + entities_of(lineup(material), k);
            let kind = lineup(material)[k].piece.piece;
            let row = scene.nodes[root].transform.translation.x / 100;
            let child = scene.children[root][m];
            &&& scene.nodes[root].parent is None
            &&& scene.nodes[root].transform.translation == lineup(material)[k].position
            &&& scene.children[root].len() == if kind == Pieces::King || kind == Pieces::Knight {
                2int
            } else {
                1int
            }
            &&& scene.nodes[child.index as int].content matches Content::Model {
                mesh: Some(_),
                material: Some(worn),
            }
            &&& worn == material.black || worn == material.white
            &&& row >= 6 ==> worn == material.black
            &&& row <= 1 ==> worn == material.white
        }),
{
    let placement = lineup(material)[k];
    let root = first + entities_of(lineup(material), k);
    lemma_lineup_sides(material, k);
    assert(piece_at(scene, root, placement.piece, placement.position, placement.offset));
    assert(mesh_at(scene, root, m, placement.piece, placement.offset));
}

} // verus!

use chess_scene::board::{create_board, BOARD_SIZE};
use chess_scene::geometry::{Color, Quat, Transform, Vec3};
use chess_scene::scene::{Content, Entity, MaterialHandle, MeshHandle, MeshSource, Node, Scene};
use chess_scene::stage::setup;

fn tiles_at(scene: &Scene, row: i32, column: i32) -> Vec<Node> {
    let mut found = Vec::new();
    for index in 0..scene.len() {
        let node = scene.node(Entity { index }).unwrap();
        if node.transform.translation == (Vec3 { x: row * 100, y: 0, z: column * 100 }) {
            found.push(node);
        }
    }
    found
}

#[test]
fn board_has_eight_rows() {
    assert_eq!(BOARD_SIZE, 8);
}

#[test]
fn board_has_64_tiles_one_mesh_two_materials() {
    let mut scene = Scene::new();
    create_board(&mut scene);
    assert_eq!(scene.len(), 64);
    assert_eq!(scene.mesh_count(), 1);
    assert_eq!(scene.material_count(), 2);
    assert_eq!(scene.mesh(MeshHandle { index: 0 }), Some(&MeshSource::Plane { size: 100 }));
    assert_eq!(scene.material(MaterialHandle { index: 0 }), Some(Color { r: 100, g: 100, b: 100 }));
    assert_eq!(scene.material(MaterialHandle { index: 1 }), Some(Color { r: 0, g: 10, b: 10 }));
}

#[test]
fn every_square_has_exactly_one_tile_of_the_right_shade() {
    let mut scene = Scene::new();
    create_board(&mut scene);
    let light = MaterialHandle { index: 0 };
    let dark = MaterialHandle { index: 1 };
    for row in 0..8 {
        for column in 0..8 {
            let found = tiles_at(&scene, row, column);
            assert_eq!(found.len(), 1);
            let expected = if (row + column + 1) % 2 == 0 { light } else { dark };
            assert_eq!(
                found[0],
                Node {
                    transform: Transform {
                        translation: Vec3 { x: row * 100, y: 0, z: column * 100 },
                        rotation: Quat { x: 0, y: 0, z: 0, w: 100 },
                        scale: Vec3 { x: 100, y: 100, z: 100 },
                    },
                    content: Content::Model {
                        mesh: Some(MeshHandle { index: 0 }),
                        material: Some(expected),
                    },
                    parent: None,
                }
            );
        }
    }
}

#[test]
fn tiles_come_row_by_row() {
    let mut scene = Scene::new();
    create_board(&mut scene);
    for index in 0..64 {
        let node = scene.node(Entity { index }).unwrap();
        assert_eq!(node.transform.translation.x, (index as i32 / 8) * 100);
        assert_eq!(node.transform.translation.z, (index as i32 % 8) * 100);
        assert_eq!(scene.children(Entity { index }), Some(&Vec::new()));
    }
}

#[test]
fn corner_tiles_are_dark_and_their_neighbours_light() {
    let mut scene = Scene::new();
    create_board(&mut scene);
    let material = |row: usize, column: usize| match scene
        .node(Entity { index: 8 * row + column })
        .unwrap()
        .content
    {
        Content::Model { material, .. } => material,
        _ => None,
    };
    let light = Some(MaterialHandle { index: 0 });
    let dark = Some(MaterialHandle { index: 1 });
    assert_eq!(material(0, 0), dark);
    assert_eq!(material(7, 7), dark);
    assert_eq!(material(0, 1), light);
    assert_eq!(material(1, 0), light);
    assert_eq!(material(0, 7), light);
    assert_eq!(material(7, 0), light);
    assert_eq!(material(3, 4), light);
    assert_eq!(material(3, 3), dark);
}

#[test]
fn building_the_board_twice_doubles_every_tile() {
    let mut scene = Scene::new();
    create_board(&mut scene);
    create_board(&mut scene);
    assert_eq!(scene.len(), 128);
    assert_eq!(scene.mesh_count(), 2);
    assert_eq!(scene.material_count(), 4);
    for row in 0..8 {
        for column in 0..8 {
            let found = tiles_at(&scene, row, column);
            assert_eq!(found.len(), 2);
            let shade = if (row + column + 1) % 2 == 0 { 0 } else { 1 };
            assert_eq!(
                found[0].content,
                Content::Model {
                    mesh: Some(MeshHandle { index: 0 }),
                    material: Some(MaterialHandle { index: shade }),
                }
            );
            assert_eq!(
                found[1].content,
                Content::Model {
                    mesh: Some(MeshHandle { index: 1 }),
                    material: Some(MaterialHandle { index: 2 + shade }),
                }
            );
        }
    }
}

#[test]
fn board_goes_behind_what_the_scene_holds() {
    let mut scene = Scene::new();
    setup(&mut scene);
    let plane = scene.add_plane(50);
    let red = scene.add_material(Color::rgb(100, 0, 0));
    create_board(&mut scene);
    assert_eq!(scene.len(), 66);
    assert_eq!(plane.index, 0);
    assert_eq!(red.index, 0);
    assert_eq!(scene.node(Entity { index: 0 }).unwrap().content, Content::Camera);
    assert_eq!(scene.node(Entity { index: 1 }).unwrap().content, Content::PointLight);
    assert_eq!(
        scene.node(Entity { index: 2 }).unwrap().content,
        Content::Model {
            mesh: Some(MeshHandle { index: 1 }),
            material: Some(MaterialHandle { index: 2 }),
        }
    );
    assert_eq!(
        scene.node(Entity { index: 3 }).unwrap().content,
        Content::Model {
            mesh: Some(MeshHandle { index: 1 }),
            material: Some(MaterialHandle { index: 1 }),
        }
    );
    assert_eq!(scene.mesh(MeshHandle { index: 1 }), Some(&MeshSource::Plane { size: 100 }));
}

#[test]
fn setup_adds_camera_then_light() {
    let mut scene = Scene::new();
    setup(&mut scene);
    assert_eq!(scene.len(), 2);
    assert_eq!(scene.mesh_count(), 0);
    assert_eq!(scene.material_count(), 0);
    assert_eq!(
        scene.node(Entity { index: 0 }),
        Some(Node {
            transform: Transform {
                translation: Vec3 { x: -700, y: 2000, z: 400 },
                rotation: Quat { x: -30, y: -50, z: -30, w: 50 },
                scale: Vec3 { x: 100, y: 100, z: 100 },
            },
            content: Content::Camera,
            parent: None,
        })
    );
    assert_eq!(
        scene.node(Entity { index: 1 }),
        Some(Node {
            transform: Transform {
                translation: Vec3 { x: 400, y: 800, z: 400 },
                rotation: Quat { x: 0, y: 0, z: 0, w: 100 },
                scale: Vec3 { x: 100, y: 100, z: 100 },
            },
            content: Content::PointLight,
            parent: None,
        })
    );
}

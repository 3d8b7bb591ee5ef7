use chess_scene::geometry::{Color, Quat, Transform, Vec3, UNIT};
use chess_scene::scene::{Content, Entity, MaterialHandle, MeshHandle, MeshSource, Node, Scene};

fn model(mesh: Option<usize>, material: Option<usize>) -> Content {
    Content::Model {
        mesh: mesh.map(|index| MeshHandle { index }),
        material: material.map(|index| MaterialHandle { index }),
    }
}

#[test]
fn new_scene_is_empty() {
    let scene = Scene::new();
    assert_eq!(scene.len(), 0);
    assert_eq!(scene.mesh_count(), 0);
    assert_eq!(scene.material_count(), 0);
    assert_eq!(scene.node(Entity { index: 0 }), None);
    assert!(scene.children(Entity { index: 0 }).is_none());
    assert!(scene.mesh(MeshHandle { index: 0 }).is_none());
    assert_eq!(scene.material(MaterialHandle { index: 0 }), None);
}

#[test]
fn unit_is_one_hundred() {
    assert_eq!(UNIT, 100);
}

#[test]
fn vec3_constructors() {
    assert_eq!(Vec3::new(1, -2, 3), Vec3 { x: 1, y: -2, z: 3 });
    assert_eq!(Vec3::splat(20), Vec3 { x: 20, y: 20, z: 20 });
}

#[test]
fn at_square_scales_row_and_column() {
    assert_eq!(Vec3::at_square(0, 0), Vec3 { x: 0, y: 0, z: 0 });
    assert_eq!(Vec3::at_square(7, 4), Vec3 { x: 700, y: 0, z: 400 });
    assert_eq!(Vec3::at_square(2, 3), Vec3 { x: 200, y: 0, z: 300 });
    assert_eq!(Vec3::at_square(255, 255), Vec3 { x: 25500, y: 0, z: 25500 });
}

#[test]
fn transform_constructors() {
    let identity = Quat { x: 0, y: 0, z: 0, w: 100 };
    assert_eq!(Quat::identity(), identity);
    assert_eq!(Quat::from_xyzw(1, 2, 3, 4), Quat { x: 1, y: 2, z: 3, w: 4 });
    let moved = Transform::from_translation(Vec3::new(5, 6, 7));
    assert_eq!(
        moved,
        Transform {
            translation: Vec3 { x: 5, y: 6, z: 7 },
            rotation: identity,
            scale: Vec3 { x: 100, y: 100, z: 100 },
        }
    );
    assert_eq!(
        moved.scaled(Vec3::splat(20)),
        Transform {
            translation: Vec3 { x: 5, y: 6, z: 7 },
            rotation: identity,
            scale: Vec3 { x: 20, y: 20, z: 20 },
        }
    );
    assert_eq!(
        Transform::from_rotation_translation(Quat::from_xyzw(1, 2, 3, 4), Vec3::new(5, 6, 7)),
        Transform {
            translation: Vec3 { x: 5, y: 6, z: 7 },
            rotation: Quat { x: 1, y: 2, z: 3, w: 4 },
            scale: Vec3 { x: 100, y: 100, z: 100 },
        }
    );
    assert_eq!(Color::rgb(0, 10, 10), Color { r: 0, g: 10, b: 10 });
}

#[test]
fn materials_are_never_shared_by_colour() {
    let mut scene = Scene::new();
    let first = scene.add_material(Color::rgb(10, 10, 10));
    let second = scene.add_material(Color::rgb(10, 10, 10));
    assert_eq!(first, MaterialHandle { index: 0 });
    assert_eq!(second, MaterialHandle { index: 1 });
    assert_eq!(scene.material_count(), 2);
    assert_eq!(scene.material(first), Some(Color { r: 10, g: 10, b: 10 }));
    assert_eq!(scene.material(second), Some(Color { r: 10, g: 10, b: 10 }));
    assert_eq!(scene.material(MaterialHandle { index: 2 }), None);
}

#[test]
fn planes_are_never_shared() {
    let mut scene = Scene::new();
    let first = scene.add_plane(100);
    let second = scene.add_plane(100);
    assert_eq!(first, MeshHandle { index: 0 });
    assert_eq!(second, MeshHandle { index: 1 });
    assert_eq!(scene.mesh(first), Some(&MeshSource::Plane { size: 100 }));
    assert_eq!(scene.mesh(second), Some(&MeshSource::Plane { size: 100 }));
}

#[test]
fn assets_are_loaded_once() {
    let mut scene = Scene::new();
    let plane = scene.add_plane(100);
    let a = scene.load_mesh("kit.glb#Mesh0/Primitive0");
    let b = scene.load_mesh("kit.glb#Mesh1/Primitive0");
    let a_again = scene.load_mesh("kit.glb#Mesh0/Primitive0");
    let b_again = scene.load_mesh("kit.glb#Mesh1/Primitive0");
    assert_eq!(plane, MeshHandle { index: 0 });
    assert_eq!(a, MeshHandle { index: 1 });
    assert_eq!(b, MeshHandle { index: 2 });
    assert_eq!(a_again, a);
    assert_eq!(b_again, b);
    assert_eq!(scene.mesh_count(), 3);
    assert_eq!(
        scene.mesh(a),
        Some(&MeshSource::Asset { path: String::from("kit.glb#Mesh0/Primitive0") })
    );
    assert_eq!(
        scene.mesh(b),
        Some(&MeshSource::Asset { path: String::from("kit.glb#Mesh1/Primitive0") })
    );
    assert!(scene.mesh(MeshHandle { index: 3 }).is_none());
}

#[test]
fn asset_paths_are_compared_exactly() {
    let mut scene = Scene::new();
    let a = scene.load_mesh("kit.glb#Mesh0");
    let b = scene.load_mesh("kit.glb#Mesh0 ");
    let c = scene.load_mesh("");
    assert_eq!(a.index, 0);
    assert_eq!(b.index, 1);
    assert_eq!(c.index, 2);
    assert_eq!(scene.load_mesh(""), c);
}

#[test]
fn spawn_appends_entities_without_parent() {
    let mut scene = Scene::new();
    let transform = Transform::from_translation(Vec3::new(1, 2, 3));
    let first = scene.spawn(transform, Content::Camera);
    let second = scene.spawn(transform, Content::PointLight);
    assert_eq!(first, Entity { index: 0 });
    assert_eq!(second, Entity { index: 1 });
    assert_eq!(scene.len(), 2);
    assert_eq!(
        scene.node(first),
        Some(Node { transform, content: Content::Camera, parent: None })
    );
    assert_eq!(
        scene.node(second),
        Some(Node { transform, content: Content::PointLight, parent: None })
    );
    assert_eq!(scene.children(first), Some(&Vec::new()));
    assert_eq!(scene.children(second), Some(&Vec::new()));
    assert_eq!(scene.node(Entity { index: 2 }), None);
    assert!(scene.children(Entity { index: 2 }).is_none());
}

#[test]
fn children_are_listed_in_order_of_attachment() {
    let mut scene = Scene::new();
    let transform = Transform::from_translation(Vec3::new(0, 0, 0));
    let a = scene.spawn(transform, model(None, None));
    let b = scene.spawn(transform, model(None, None));
    let b1 = scene.spawn_child(b, transform, model(None, None));
    let a1 = scene.spawn_child(a, transform, model(None, None));
    let b2 = scene.spawn_child(b, transform, model(None, None));
    let a1x = scene.spawn_child(a1, transform, model(None, None));
    assert_eq!(
        (a.index, b.index, b1.index, a1.index, b2.index, a1x.index),
        (0, 1, 2, 3, 4, 5)
    );
    assert_eq!(scene.children(a), Some(&vec![a1]));
    assert_eq!(scene.children(b), Some(&vec![b1, b2]));
    assert_eq!(scene.children(a1), Some(&vec![a1x]));
    assert_eq!(scene.children(b1), Some(&Vec::new()));
    assert_eq!(scene.node(a1).unwrap().parent, Some(a));
    assert_eq!(scene.node(b1).unwrap().parent, Some(b));
    assert_eq!(scene.node(b2).unwrap().parent, Some(b));
    assert_eq!(scene.node(a1x).unwrap().parent, Some(a1));
    assert_eq!(scene.node(a).unwrap().parent, None);
}

#[test]
fn parent_and_child_records_agree() {
    let mut scene = Scene::new();
    let transform = Transform::from_translation(Vec3::new(0, 0, 0));
    let root = scene.spawn(transform, model(None, None));
    for _ in 0..5 {
        scene.spawn_child(root, transform, model(None, None));
    }
    for index in 0..scene.len() {
        let entity = Entity { index };
        for child in scene.children(entity).unwrap() {
            assert!(child.index > index);
            assert_eq!(scene.node(*child).unwrap().parent, Some(entity));
        }
        if let Some(parent) = scene.node(entity).unwrap().parent {
            assert!(parent.index < index);
            assert!(scene.children(parent).unwrap().contains(&entity));
        }
    }
}

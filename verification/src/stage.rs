//! Camera and light.

use vstd::prelude::*;
use crate::geometry::{Quat, Transform, Vec3};
use crate::scene::{Content, Scene, SceneView};

verus! {

/// Where the camera stands and how it is turned: above the white side of
/// the board, looking down on it.
pub open spec fn camera_transform() -> Transform {
    Transform {
        translation: Vec3 { x: -700i32, y: 2000, z: 400 },
        rotation: Quat { x: -30i32, y: -50i32, z: -30i32, w: 50 },
        scale: Vec3 { x: 100, y: 100, z: 100 },
    }
}

/// Where the light hangs: above the middle of the board.
pub open spec fn light_transform() -> Transform {
    Transform::spec_from_translation(Vec3 { x: 400, y: 800, z: 400 })
}

/// The scene with one more camera and, behind it, one more point light.
pub open spec fn stage_set(scene: SceneView) -> SceneView {
    scene.with_root(camera_transform(), Content::Camera).with_root(
        light_transform(),
        Content::PointLight,
    )
}

/// Adds the camera and the point light to `scene`, in this order.
pub fn setup(scene: &mut Scene)
    ensures
        final(scene)@ == stage_set(old(scene)@),
        final(scene)@.nodes.len() == old(scene)@.nodes.len() + 2,
        old(scene)@.wf() ==> final(scene)@.wf(),
{
    scene.spawn(
        Transform::from_rotation_translation(
            Quat::from_xyzw(-30, -50, -30, 50),
            Vec3::new(-700, 2000, 400),
        ),
        Content::Camera,
    );
    scene.spawn(Transform::from_translation(Vec3::new(400, 800, 400)), Content::PointLight);
}

} // verus!

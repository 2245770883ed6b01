use glam::{Affine3A, Vec3};
use wgpu_rt_lidar::scene::{AssetMesh, BuildPlan, BuildState, GeometryHandle, Instance, InstanceHandle, RayTraceScene, SceneError};

fn triangle() -> AssetMesh<[f32; 3]> {
    AssetMesh {
        vertex_buf: vec![[0.0, 0.0, 0.0], [1.0, 0.0, 0.0], [0.0, 1.0, 0.0]],
        index_buf: vec![0, 1, 2],
    }
}

fn quad() -> AssetMesh<[f32; 3]> {
    AssetMesh {
        vertex_buf: vec![[0.0, 0.0, 1.0], [1.0, 0.0, 1.0], [1.0, 1.0, 1.0], [0.0, 1.0, 1.0]],
        index_buf: vec![0, 1, 2, 2, 3, 0],
    }
}

fn patch_slots(plan: BuildPlan) -> Vec<usize> {
    match plan {
        BuildPlan::Patch(v) => {
            let mut v = v;
            v.sort();
            v
        }
        other => panic!("expected a patch, got {:?}", other),
    }
}

#[test]
fn pose_change_after_build_patches_only_that_slot() {
    let mut scene = RayTraceScene::new(vec![], vec![]);
    let g = scene.register_geometry(triangle());
    assert_eq!(g, GeometryHandle(0));
    let a = scene.add_instance(g, Affine3A::from_translation(Vec3::new(0.0, 0.0, 5.0)));
    let b = scene.add_instance(g, Affine3A::from_translation(Vec3::new(0.0, 0.0, -5.0)));
    assert_eq!((a, b), (InstanceHandle(0), InstanceHandle(1)));
    assert!(matches!(scene.ensure_built(), BuildPlan::Full));
    assert!(matches!(scene.state(), BuildState::Clean));

    let moved = Affine3A::from_translation(Vec3::new(3.0, 0.0, 5.0));
    scene.set_instance_pose(b, moved);
    assert!(matches!(scene.state(), BuildState::Dirty(_)));
    assert_eq!(patch_slots(scene.ensure_built()), vec![1]);
    assert_eq!(scene.instances()[1].transform, moved);
    assert_eq!(scene.instances()[1].asset_mesh_index, 0);
    assert_eq!(scene.instances()[0].transform, Affine3A::from_translation(Vec3::new(0.0, 0.0, 5.0)));
    assert!(matches!(scene.ensure_built(), BuildPlan::Nothing));
}

#[test]
fn repeated_pose_changes_name_each_slot_once() {
    let mut scene = RayTraceScene::new(vec![triangle()], vec![]);
    let g = GeometryHandle(0);
    for i in 0..3 {
        scene.add_instance(g, Affine3A::from_translation(Vec3::new(i as f32, 0.0, 0.0)));
    }
    scene.ensure_built();
    scene.set_instance_pose(InstanceHandle(2), Affine3A::IDENTITY);
    scene.set_instance_pose(InstanceHandle(0), Affine3A::IDENTITY);
    scene.set_instance_pose(InstanceHandle(2), Affine3A::from_translation(Vec3::X));
    assert_eq!(patch_slots(scene.ensure_built()), vec![0, 2]);
    assert_eq!(scene.instances()[2].transform, Affine3A::from_translation(Vec3::X));
}

#[test]
fn growth_after_build_calls_for_full_build() {
    let mut scene = RayTraceScene::new(vec![triangle()], vec![]);
    scene.add_instance(GeometryHandle(0), Affine3A::IDENTITY);
    assert!(matches!(scene.state(), BuildState::Unbuilt));
    assert!(matches!(scene.ensure_built(), BuildPlan::Full));
    scene.set_instance_pose(InstanceHandle(0), Affine3A::from_translation(Vec3::Y));
    let q = scene.register_geometry(quad());
    assert_eq!(q, GeometryHandle(1));
    assert!(matches!(scene.state(), BuildState::Rebuild));
    // A pose change does not turn a due full build into a patch.
    scene.set_instance_pose(InstanceHandle(0), Affine3A::IDENTITY);
    assert!(matches!(scene.ensure_built(), BuildPlan::Full));
    scene.add_instance(q, Affine3A::IDENTITY);
    assert!(matches!(scene.ensure_built(), BuildPlan::Full));
    assert!(matches!(scene.ensure_built(), BuildPlan::Nothing));
}

#[test]
fn batched_transform_update() {
    let instances = vec![
        Instance { asset_mesh_index: 0, transform: Affine3A::IDENTITY },
        Instance { asset_mesh_index: 0, transform: Affine3A::IDENTITY },
        Instance { asset_mesh_index: 1, transform: Affine3A::IDENTITY },
    ];
    let mut scene = RayTraceScene::new(vec![triangle(), quad()], instances);
    scene.ensure_built();
    let moved = Instance { asset_mesh_index: 1, transform: Affine3A::from_translation(Vec3::Z) };
    assert_eq!(scene.set_transform(&vec![moved], &vec![0, 2]), Err(SceneError::LengthMismatch));
    assert!(matches!(scene.state(), BuildState::Clean));
    assert_eq!(scene.set_transform(&vec![moved, moved], &vec![0, 2]), Ok(()));
    assert_eq!(scene.instances()[0].asset_mesh_index, 1);
    assert_eq!(scene.instances()[0].transform, Affine3A::from_translation(Vec3::Z));
    assert_eq!(scene.instances()[1].transform, Affine3A::IDENTITY);
    assert_eq!(patch_slots(scene.ensure_built()), vec![0, 2]);
    assert_eq!(scene.set_transform(&vec![], &vec![]), Ok(()));
    assert!(matches!(scene.ensure_built(), BuildPlan::Nothing));
}

#[test]
fn packing_lays_assets_end_to_end() {
    let scene = RayTraceScene::new(vec![triangle(), quad(), triangle()], vec![]);
    let packed = scene.pack_geometry();
    assert_eq!(packed.vertices.len(), 3 + 4 + 3);
    assert_eq!(packed.indices.len(), 3 + 6 + 3);
    assert_eq!(packed.first_vertex, vec![0, 3, 7]);
    assert_eq!(packed.first_index, vec![0, 3, 9]);
    assert_eq!(packed.vertices[3], [0.0, 0.0, 1.0]);
    assert_eq!(&packed.indices[3..9], &[0, 1, 2, 2, 3, 0]);
    assert_eq!(scene.assets().len(), 3);
}

#[test]
fn mesh_validity() {
    assert!(triangle().is_valid());
    assert!(quad().is_valid());
    let bad_index = AssetMesh { vertex_buf: vec![[0.0f32; 3]; 2], index_buf: vec![0, 1, 2] };
    assert!(!bad_index.is_valid());
    let partial = AssetMesh { vertex_buf: vec![[0.0f32; 3]; 3], index_buf: vec![0, 1] };
    assert!(!partial.is_valid());
    let empty: AssetMesh<[f32; 3]> = AssetMesh { vertex_buf: vec![], index_buf: vec![] };
    assert!(empty.is_valid());
}

use glam::Vec3;
use wgpu_rt_lidar::voxel::{neighbours_of_queries, CellPoint, DenseVoxel, VoxelError, VoxelItem, NOT_FOUND};

/// The grid of the original voxel tests: (0,0,0)-(5,5,5) at resolution 0.5
/// gives ten cells per axis, with ten slots per cell.
fn grid_of_ten() -> DenseVoxel {
    DenseVoxel::new(10, 10, 10, 10).unwrap()
}

fn occupied_count(v: &DenseVoxel) -> usize {
    v.data().iter().filter(|i| i.occupied).count()
}

/// Fills the grid as the original tests did; cells are the positions
/// floor-divided by the resolution.
fn filled_grid() -> (DenseVoxel, usize) {
    let mut voxel_grid = grid_of_ten();
    voxel_grid.add_item(1, 1, 1, VoxelItem::new(Vec3::new(0.5, 0.5, 0.5))).unwrap();
    voxel_grid.add_item(3, 3, 3, VoxelItem::new(Vec3::new(1.55, 1.55, 1.55))).unwrap();
    let target = voxel_grid.add_item(3, 3, 3, VoxelItem::new(Vec3::new(1.6, 1.6, 1.6))).unwrap();
    (voxel_grid, target)
}

fn check_filled_grid(voxel_grid: &DenseVoxel) {
    let items = voxel_grid.get_items_in_cell(1, 1, 1);
    assert_eq!(items.len(), 1);

    let items = voxel_grid.get_items_in_cell(3, 3, 3);
    assert_eq!(items.len(), 2);

    for i in 0..5 {
        for j in 0..5 {
            for k in 0..5 {
                let internal_index = voxel_grid.index(i, j, k);
                let (x, y, z) = voxel_grid.from_index(internal_index);
                assert_eq!(i, x);
                assert_eq!(j, y);
                assert_eq!(k, z);
            }
        }
    }
}

#[test]
fn test_voxel_nn() {
    let (voxel_grid, target) = filled_grid();
    check_filled_grid(&voxel_grid);
    assert_eq!(target, voxel_grid.index(3, 3, 3) + 1);
}

#[test]
fn test_voxel_rrt() {
    let (voxel_grid, target) = filled_grid();
    check_filled_grid(&voxel_grid);
    let query_points = vec![
        CellPoint { x: 3, y: 3, z: 3, position: Vec3::new(1.65, 1.65, 1.65) },
        CellPoint { x: 3, y: 3, z: 3, position: Vec3::new(1.85, 1.85, 1.85) },
        CellPoint { x: 3, y: 3, z: 3, position: Vec3::new(1.58, 1.58, 1.58) },
    ];
    let (q, slots) = voxel_grid.prepare_query_points(&query_points).unwrap();
    assert_eq!(slots.len(), 3);
    assert_eq!(q.get_items_in_cell(3, 3, 3).len(), 3);
    assert_eq!(target, voxel_grid.index(3, 3, 3) + 1);
}

#[test]
fn stored_items_round_trip_over_small_grid() {
    let mut v = DenseVoxel::new(5, 5, 5, 2).unwrap();
    for x in 0..5 {
        for y in 0..5 {
            for z in 0..5 {
                let p = Vec3::new(x as f32, y as f32, z as f32);
                let slot = v.add_item(x, y, z, VoxelItem::new(p)).unwrap();
                assert_eq!(v.from_index(slot), (x, y, z));
                let items = v.get_items_in_cell(x, y, z);
                assert_eq!(items.iter().filter(|i| i.position == p).count(), 1);
            }
        }
    }
    assert_eq!(occupied_count(&v), 125);
}

#[test]
fn linear_cell_index_follows_x_then_y_then_z() {
    let v = DenseVoxel::new(4, 3, 2, 5).unwrap();
    assert_eq!(v.capacity(), 4 * 3 * 2 * 5);
    assert_eq!(v.index(1, 0, 0), 5);
    assert_eq!(v.index(0, 1, 0), 4 * 5);
    assert_eq!(v.index(0, 0, 1), 4 * 3 * 5);
    assert_eq!(v.index(3, 2, 1), (3 + 2 * 4 + 4 * 3) * 5);
    assert_eq!(v.from_index(v.index(3, 2, 1) + 4), (3, 2, 1));
}

#[test]
fn full_cell_refuses_and_keeps_entries() {
    let mut v = DenseVoxel::new(2, 2, 2, 2).unwrap();
    let a = v.add_item(1, 0, 1, VoxelItem::new(Vec3::new(1.0, 0.0, 1.0))).unwrap();
    let b = v.add_item(1, 0, 1, VoxelItem::new(Vec3::new(1.5, 0.5, 1.5))).unwrap();
    assert_eq!(b, a + 1);
    let before: Vec<(Vec3, bool)> = v.data().iter().map(|i| (i.position, i.occupied)).collect();
    assert_eq!(v.add_item(1, 0, 1, VoxelItem::new(Vec3::new(1.2, 0.2, 1.2))), Err(VoxelError::CellFull));
    let after: Vec<(Vec3, bool)> = v.data().iter().map(|i| (i.position, i.occupied)).collect();
    assert_eq!(before, after);
    assert_eq!(v.get_items_in_cell(1, 0, 1).len(), 2);
    // A neighbouring cell still has room.
    assert!(v.add_item(0, 0, 1, VoxelItem::new(Vec3::new(0.0, 0.0, 1.0))).is_ok());
}

#[test]
fn out_of_grid_refused_and_index_unchanged() {
    let mut v = DenseVoxel::new(3, 3, 3, 1).unwrap();
    v.add_item(0, 0, 0, VoxelItem::new(Vec3::ZERO)).unwrap();
    assert_eq!(v.add_item(3, 0, 0, VoxelItem::new(Vec3::ONE)), Err(VoxelError::OutOfBounds));
    assert_eq!(v.add_item(0, 3, 0, VoxelItem::new(Vec3::ONE)), Err(VoxelError::OutOfBounds));
    assert_eq!(v.add_item(0, 0, 7, VoxelItem::new(Vec3::ONE)), Err(VoxelError::OutOfBounds));
    assert_eq!(occupied_count(&v), 1);
    assert!(v.get_items_in_cell(5, 5, 5).is_empty());
}

#[test]
fn empty_grid_and_zero_density() {
    let mut v = DenseVoxel::new(0, 4, 4, 3).unwrap();
    assert_eq!(v.capacity(), 0);
    assert_eq!(v.add_item(0, 0, 0, VoxelItem::new(Vec3::ZERO)), Err(VoxelError::OutOfBounds));
    let mut w = DenseVoxel::new(2, 2, 2, 0).unwrap();
    assert_eq!(w.add_item(1, 1, 1, VoxelItem::new(Vec3::ZERO)), Err(VoxelError::CellFull));
}

#[test]
fn grid_too_large_is_refused() {
    assert!(matches!(DenseVoxel::new(usize::MAX, 2, 1, 1), Err(VoxelError::TooLarge)));
    assert!(matches!(DenseVoxel::new(usize::MAX, 0, 1, 1), Ok(_)));
}

#[test]
fn grid_getters() {
    let v = DenseVoxel::new(6, 7, 8, 9).unwrap();
    assert_eq!(v.width_steps(), 6);
    assert_eq!(v.length_steps(), 7);
    assert_eq!(v.height_steps(), 8);
    assert_eq!(v.max_density(), 9);
    assert_eq!(v.data().len(), 6 * 7 * 8 * 9);
    assert!(v.data().iter().all(|i| !i.occupied));
}

#[test]
fn query_preparation_refuses_overflow_and_out_of_grid() {
    let v = DenseVoxel::new(2, 2, 2, 1).unwrap();
    let two_in_one = vec![
        CellPoint { x: 0, y: 1, z: 0, position: Vec3::ZERO },
        CellPoint { x: 0, y: 1, z: 0, position: Vec3::ONE },
    ];
    assert!(matches!(v.prepare_query_points(&two_in_one), Err(VoxelError::CellFull)));
    let outside = vec![CellPoint { x: 2, y: 0, z: 0, position: Vec3::ZERO }];
    assert!(matches!(v.prepare_query_points(&outside), Err(VoxelError::OutOfBounds)));
    let fine = vec![
        CellPoint { x: 0, y: 1, z: 0, position: Vec3::ZERO },
        CellPoint { x: 1, y: 1, z: 1, position: Vec3::ONE },
    ];
    let (q, slots) = v.prepare_query_points(&fine).unwrap();
    assert_eq!(slots, vec![v.index(0, 1, 0), v.index(1, 1, 1)]);
    assert_eq!(q.data()[slots[1]].position, Vec3::ONE);
    assert!(q.data()[slots[1]].occupied);
}

#[test]
fn nearest_neighbour_readback_maps_query_slots() {
    // One stored item at (1.6,1.6,1.6), cell (3,3,3); one query at
    // (1.65,1.65,1.65) in the same cell.
    let (voxel_grid, target) = filled_grid();
    let query = vec![CellPoint { x: 3, y: 3, z: 3, position: Vec3::new(1.65, 1.65, 1.65) }];
    let (_, slots) = voxel_grid.prepare_query_points(&query).unwrap();
    let mut results = vec![NOT_FOUND; voxel_grid.capacity()];
    results[slots[0]] = target as u32;
    let found = neighbours_of_queries(&results, &slots).unwrap();
    assert_eq!(found, vec![Some(target as u32)]);
    assert_eq!(results.iter().filter(|p| **p != NOT_FOUND).count(), 1);
    let none = neighbours_of_queries(&vec![NOT_FOUND; voxel_grid.capacity()], &slots).unwrap();
    assert_eq!(none, vec![None]);
    assert_eq!(neighbours_of_queries(&vec![0u32; 3], &vec![5]), Err(VoxelError::ResultsTooShort));
}

use wgpu_rt_lidar::dispatch::{depth_dispatch, distribute_workgroup, pixel_count, result_buffer_size, DispatchError, WorkGroupParameters};

#[test]
fn small_batches_stay_in_x() {
    let p = distribute_workgroup(100, 256, 256, 64).unwrap();
    assert_eq!(p, WorkGroupParameters { width: 100, height: 1, depth: 1, num_lidar_beams: 100 });
}

#[test]
fn batches_spill_into_y_then_z() {
    let p = distribute_workgroup(1000, 256, 256, 64).unwrap();
    assert_eq!((p.width, p.height, p.depth), (256, 4, 1));
    let n = 256 * 256 * 2 + 1;
    let p = distribute_workgroup(n, 256, 256, 64).unwrap();
    assert_eq!((p.width, p.height, p.depth), (256, 256, 3));
    assert!(p.width as u64 * p.height as u64 * p.depth as u64 >= n as u64);
    let p = distribute_workgroup(7, 2, 2, 2).unwrap();
    assert_eq!((p.width, p.height, p.depth), (2, 2, 2));
}

#[test]
fn empty_and_oversized_batches_refused() {
    assert_eq!(distribute_workgroup(0, 256, 256, 64), Err(DispatchError::NoPoints));
    assert_eq!(distribute_workgroup(256 * 256 * 64 + 1, 256, 256, 64), Err(DispatchError::TooManyPoints));
    assert!(distribute_workgroup(256 * 256 * 64, 256, 256, 64).is_ok());
    assert_eq!(distribute_workgroup(5, 0, 4, 4), Err(DispatchError::TooManyPoints));
    assert_eq!(distribute_workgroup(0, 0, 0, 0), Err(DispatchError::NoPoints));
    assert_eq!(distribute_workgroup(u32::MAX, u32::MAX, u32::MAX, u32::MAX).unwrap().width, u32::MAX);
}

#[test]
fn buffer_sizes() {
    assert_eq!(result_buffer_size(10, 4), Some(40));
    assert_eq!(result_buffer_size(256, 16), Some(4096));
    assert_eq!(result_buffer_size(usize::MAX, 16), None);
    assert_eq!(result_buffer_size(usize::MAX, 0), Some(0));
    assert_eq!(pixel_count(640, 480), 307200);
    assert_eq!(pixel_count(u32::MAX, 2), 2 * u32::MAX as u64);
}

#[test]
fn depth_workgroups_cover_edges() {
    assert_eq!(depth_dispatch(64, 48), (8, 6, 1));
    assert_eq!(depth_dispatch(100, 60), (13, 8, 1));
    assert_eq!(depth_dispatch(0, 1), (0, 1, 1));
}

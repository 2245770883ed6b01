use glam::Vec4;
use wgpu_rt_lidar::planner::{collision_hits, collision_segments, first_clear, frontier, ParentRef, PlannerError, RrtTree, CLEAR_FLAG};

#[test]
fn segments_follow_the_parent_map() {
    let candidates = vec![Vec4::new(1.0, 0.0, 0.0, 0.0), Vec4::new(2.0, 0.0, 0.0, 0.0), Vec4::new(3.0, 0.0, 0.0, 0.0)];
    let targets = vec![Vec4::ZERO, Vec4::new(9.0, 9.0, 9.0, 0.0)];
    let segs = collision_segments(&candidates, &targets, &vec![0, 1, 0]).unwrap();
    assert_eq!(segs, vec![(candidates[0], targets[0]), (candidates[1], targets[1]), (candidates[2], targets[0])]);
    assert_eq!(collision_segments(&candidates, &targets, &vec![0, 1]), Err(PlannerError::LengthMismatch));
    assert_eq!(collision_segments(&candidates, &targets, &vec![0, 2, 0]), Err(PlannerError::TargetOutOfRange));
    assert_eq!(collision_segments(&vec![], &vec![], &vec![]), Ok(vec![]));
}

#[test]
fn hits_read_from_flags() {
    let hits = collision_hits(&vec![CLEAR_FLAG, 0, 0xFFFF, CLEAR_FLAG], 4).unwrap();
    assert_eq!(hits, vec![false, true, true, false]);
    assert_eq!(collision_hits(&vec![CLEAR_FLAG], 2), Err(PlannerError::LengthMismatch));
    assert_eq!(frontier(&hits), vec![0, 3]);
    assert_eq!(first_clear(&hits), Some(0));
    assert_eq!(first_clear(&vec![true, true, false]), Some(2));
    assert_eq!(first_clear(&vec![true, true]), None);
    assert_eq!(frontier(&vec![]), Vec::<usize>::new());
}

#[test]
fn tree_paths_lead_back_to_root() {
    let mut tree = RrtTree::new(Vec4::ZERO);
    let a = tree.add_node(Vec4::new(1.0, 0.0, 0.0, 0.0), ParentRef::ParentIndex(0));
    let loose = tree.add_node(Vec4::new(5.0, 5.0, 5.0, 0.0), ParentRef::Unconnected);
    let b = tree.add_node(Vec4::new(2.0, 0.0, 0.0, 0.0), ParentRef::ParentIndex(a));
    let goal = tree.add_node(Vec4::new(3.0, 0.0, 0.0, 0.0), ParentRef::GoalReached(b));
    assert_eq!((a, loose, b, goal), (1, 2, 3, 4));
    assert_eq!(tree.len(), 5);
    assert_eq!(tree.path_to_root(goal), vec![4, 3, 1, 0]);
    assert_eq!(tree.path_to_root(loose), vec![2]);
    assert_eq!(tree.path_to_root(0), vec![0]);
    assert_eq!(tree.node(goal).parent, ParentRef::GoalReached(3));
    assert_eq!(tree.node(0).parent, ParentRef::Root);
}

#[test]
fn clear_samples_join_the_tree() {
    let mut tree = RrtTree::new(Vec4::ZERO);
    let samples = vec![Vec4::new(1.0, 0.0, 0.0, 0.0), Vec4::new(0.0, 1.0, 0.0, 0.0), Vec4::new(0.0, 0.0, 1.0, 0.0)];
    let added = tree.extend_clear(&samples, &vec![0, 0, 0], &vec![false, true, false]).unwrap();
    assert_eq!(added, vec![1, 2]);
    assert_eq!(tree.len(), 3);
    assert_eq!(tree.node(2).position, samples[2]);
    assert_eq!(tree.node(2).parent, ParentRef::ParentIndex(0));
    assert_eq!(tree.extend_clear(&samples, &vec![0, 0], &vec![false, true, false]), Err(PlannerError::LengthMismatch));
    assert_eq!(tree.extend_clear(&samples, &vec![0, 9, 0], &vec![false, true, false]), Err(PlannerError::ParentOutOfRange));
    assert_eq!(tree.len(), 3);
}

#[test]
fn goal_connects_from_first_clear_node() {
    let mut tree = RrtTree::new(Vec4::ZERO);
    let samples = vec![Vec4::new(1.0, 0.0, 0.0, 0.0), Vec4::new(0.0, 1.0, 0.0, 0.0)];
    let added = tree.extend_clear(&samples, &vec![0, 0], &vec![false, false]).unwrap();
    let goal = Vec4::new(5.0, 5.0, 0.0, 0.0);
    assert_eq!(tree.connect_goal(goal, &added, &vec![true, true]), Ok(None));
    assert_eq!(tree.len(), 3);
    let path = tree.connect_goal(goal, &added, &vec![true, false]).unwrap().unwrap();
    assert_eq!(path, vec![3, 2, 0]);
    assert_eq!(tree.node(3).parent, ParentRef::GoalReached(2));
    assert_eq!(tree.node(3).position, goal);
    assert_eq!(tree.connect_goal(goal, &added, &vec![true]), Err(PlannerError::LengthMismatch));
    assert_eq!(tree.connect_goal(goal, &vec![7], &vec![false]), Err(PlannerError::ParentOutOfRange));
}

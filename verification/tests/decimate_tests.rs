use glb_decimate::decimate::{Decimation, Origin, StepError, StepOutcome};

fn strip() -> Vec<u32> {
    vec![0, 1, 2, 2, 1, 3, 2, 3, 4, 4, 3, 5]
}

#[test]
fn a_run_of_collapses_keeps_dead_vertices_gone() {
    let (mut state, tri_num) = Decimation::new(strip(), 6);
    assert_eq!(tri_num, 4);
    state.set_queue(vec![(1, 2), (2, 3), (0, 1), (3, 4), (4, 5)], 3);
    match state.collapse_step(0).unwrap() {
        StepOutcome::Collapsed(keep, remove, origins) => {
            assert_eq!((keep, remove), (1, 2));
            assert_eq!(state.queue(), &vec![(1, 3), (0, 1), (3, 4), (4, 5)]);
            assert_eq!(origins, vec![Origin::Recost, Origin::Recost, Origin::Kept(3), Origin::Kept(4)]);
        },
        StepOutcome::Skipped => panic!("collapse expected"),
    }
    assert_eq!(state.goal(), 1);
    assert_eq!(state.index_list(), &vec![1, 3, 4, 4, 3, 5]);
    // the second collapse flattens two more triangles than the goal allows
    assert_eq!(state.collapse_step(2).err(), Some(StepError::GoalUnderflow));
}

#[test]
fn dead_vertices_leave_the_index_list_and_table() {
    let (mut state, _) = Decimation::new(strip(), 6);
    state.set_queue(vec![(3, 4), (1, 2)], 10);
    for _ in 0..2 {
        assert!(matches!(state.collapse_step(0).unwrap(), StepOutcome::Collapsed(..)));
        for (v, alive) in state.alive().iter().enumerate() {
            if !alive {
                assert!(state.index_list().iter().all(|&x| x as usize != v));
                assert!(!state.vertices().contains_key(&(v as u32)));
            }
        }
        for (a, b) in state.queue() {
            assert!(state.alive()[*a as usize] && state.alive()[*b as usize]);
            assert_ne!(a, b);
        }
    }
    assert!(state.queue().is_empty());
}

#[test]
fn retired_pairs_are_skipped_and_bad_pairs_refused() {
    let (mut state, _) = Decimation::new(strip(), 6);
    // (0, 9) is out of range for the liveness table when the queue is updated
    state.set_queue(vec![(1, 2), (0, 9)], 5);
    assert_eq!(state.collapse_step(0).err(), Some(StepError::OutOfRange));
    let (mut s2, _) = Decimation::new(strip(), 6);
    s2.set_queue(vec![(9, 0)], 5);
    assert_eq!(s2.collapse_step(0).err(), Some(StepError::OutOfRange));
    let (mut s3, _) = Decimation::new(strip(), 6);
    s3.set_queue(vec![(1, 2), (2, 1)], 5);
    assert!(matches!(s3.collapse_step(0).unwrap(), StepOutcome::Collapsed(..)));
    assert!(s3.queue().is_empty());
    s3.set_queue(vec![(2, 2)], 5);
    assert!(matches!(s3.collapse_step(0).unwrap(), StepOutcome::Skipped));
}

#[test]
fn renamed_pairs_keep_two_different_ends() {
    let (mut state, _) = Decimation::new(strip(), 6);
    // (2, 3) and (3, 2) both become (1, 3) after 2 merges into 1; (1, 2) itself leaves
    state.set_queue(vec![(1, 2), (2, 3), (3, 2), (2, 1), (0, 2)], 10);
    assert!(matches!(state.collapse_step(0).unwrap(), StepOutcome::Collapsed(1, 2, _)));
    assert_eq!(state.queue(), &vec![(1, 3), (3, 1), (0, 1)]);
    assert!(state.queue().iter().all(|(a, b)| a != b));
}

use glb_decimate::collapse::{
    collapse_topology, drop_collapsed_triangles, is_retired, max_goal, merge_vertices, relabel_vertex,
    relink_edge_set, relink_face_set, update_pair, PairUpdate,
};
use glb_decimate::mesh::{initialize, Vertex};

#[test]
fn relink_edges_of_a_collapse() {
    // keep = 1, remove = 2
    let edges: Vec<(u32, u32)> = vec![(1, 2), (1, 5), (2, 1), (5, 1), (2, 7), (7, 2), (3, 4)];
    let mut out: Vec<(u32, u32)> = Vec::new();
    relink_edge_set(&mut out, &edges, 1, 2);
    assert_eq!(out, vec![(1, 5), (5, 1), (1, 7), (2, 1), (3, 4)]);
}

#[test]
fn relink_faces_of_a_collapse() {
    let faces: Vec<(u32, u32, u32)> = vec![(1, 2, 3), (3, 1, 4), (2, 5, 6), (5, 2, 6), (5, 6, 2), (7, 8, 9)];
    let mut out: Vec<(u32, u32, u32)> = Vec::new();
    relink_face_set(&mut out, &faces, 1, 2);
    assert_eq!(out, vec![(3, 1, 4), (1, 5, 6), (5, 1, 6), (5, 6, 1), (7, 8, 9)]);
}

#[test]
fn merge_keeps_order_of_both_records() {
    let v1 = Vertex::new(vec![(1, 2), (1, 3)], vec![(1, 2, 3), (1, 3, 4)]);
    let v2 = Vertex::new(vec![(2, 1), (2, 5)], vec![(1, 2, 3), (2, 5, 6)]);
    let m = merge_vertices(&v1, &v2, 1, 2);
    assert_eq!(m.edge_set, vec![(1, 3), (1, 5)]);
    assert_eq!(m.face_set, vec![(1, 3, 4), (1, 5, 6)]);
}

#[test]
fn relabel_and_drop() {
    let mut idx: Vec<u32> = vec![0, 1, 2, 1, 2, 3, 2, 3, 4, 9];
    relabel_vertex(&mut idx, 2, 1);
    assert_eq!(idx, vec![0, 1, 1, 1, 1, 3, 1, 3, 4, 9]);
    let (kept, dropped) = drop_collapsed_triangles(&idx, 1);
    assert_eq!(kept, vec![1, 3, 4]);
    assert_eq!(dropped, 2);
}

#[test]
fn collapse_topology_of_a_strip() {
    let mut idx: Vec<u32> = vec![0, 1, 2, 2, 1, 3, 2, 3, 4];
    let (mut table, _) = initialize(&idx, 5);
    let mut alive = vec![true; 5];
    let dropped = collapse_topology(&mut alive, &mut table, &mut idx, 1, 2);
    assert_eq!(dropped, 2);
    assert_eq!(idx, vec![1, 3, 4]);
    assert_eq!(alive, vec![true, true, false, true, true]);
    assert!(!table.contains_key(&2));
    assert!(table.contains_key(&1));
    assert_eq!(table.len(), 4);
    assert!(table[&1].face_set.iter().all(|f| f.0 != 2 && f.1 != 2 && f.2 != 2));
}

#[test]
fn queued_pairs_after_collapse() {
    let alive = vec![true, true, false, true];
    // keep 1, remove 2
    assert_eq!(update_pair(2, 1, 1, 2, &alive), Some(PairUpdate::Discard));
    assert_eq!(update_pair(1, 2, 1, 2, &alive), Some(PairUpdate::Discard));
    assert_eq!(update_pair(2, 3, 1, 2, &alive), Some(PairUpdate::Recost(1, 3)));
    assert_eq!(update_pair(0, 2, 1, 2, &alive), Some(PairUpdate::Recost(0, 1)));
    assert_eq!(update_pair(1, 3, 1, 2, &alive), Some(PairUpdate::Recost(1, 3)));
    assert_eq!(update_pair(0, 3, 1, 2, &alive), Some(PairUpdate::Keep));
    let alive2 = vec![false, true, false, true];
    assert_eq!(update_pair(0, 3, 1, 2, &alive2), Some(PairUpdate::Discard));
    assert_eq!(update_pair(0, 99, 1, 2, &alive2), Some(PairUpdate::Discard));
    assert_eq!(update_pair(3, 99, 1, 2, &alive2), None);
}

#[test]
fn retired_pairs() {
    let alive = vec![false, true, false];
    assert_eq!(is_retired(&alive, 0, 2), Some(true));
    assert_eq!(is_retired(&alive, 0, 1), Some(false));
    assert_eq!(is_retired(&alive, 1, 7), Some(false));
    assert_eq!(is_retired(&alive, 0, 7), None);
    assert_eq!(is_retired(&alive, 5, 0), None);
}

#[test]
fn goal_for_a_triangle_limit() {
    assert_eq!(max_goal(10, 100, 95), 5);
    assert_eq!(max_goal(3, 100, 95), 3);
    assert_eq!(max_goal(3, 5, 5), 0);
}

#[test]
fn table_follows_alive_vertices_through_collapses() {
    let mut idx: Vec<u32> = vec![0, 1, 2, 2, 1, 3, 2, 3, 4, 4, 3, 5];
    let (mut table, _) = initialize(&idx, 6);
    let mut alive = vec![true; 6];
    for (keep, remove) in [(1u32, 2u32), (3, 4)] {
        let before = idx.len();
        let dropped = collapse_topology(&mut alive, &mut table, &mut idx, keep, remove);
        assert_eq!(idx.len() % 3, 0);
        assert_eq!(idx.len() + 3 * dropped, 3 * (before / 3));
        assert!(idx.iter().all(|&x| x != remove));
        let mut keys: Vec<u32> = table.keys().copied().collect();
        keys.sort();
        let alive_keys: Vec<u32> = (0..6u32).filter(|&k| alive[k as usize]).collect();
        assert_eq!(keys, alive_keys);
    }
}

use glb_decimate::mesh::{add_connected_pairs, build_vertex, canonical_pair, incident_triangles, initialize, Vertex};
use std::collections::HashMap;

fn quad() -> Vec<u32> {
    // two triangles sharing the edge 1-2
    vec![0, 1, 2, 2, 1, 3]
}

#[test]
fn vertex_records_of_a_quad() {
    let idx = quad();
    let v0 = build_vertex(&idx, 0);
    assert_eq!(v0.edge_set, vec![(0, 1), (2, 0)]);
    assert_eq!(v0.face_set, vec![(0, 1, 2)]);
    let v1 = build_vertex(&idx, 1);
    // at a middle corner the two sides are (a, b) and (b, c)
    assert_eq!(v1.edge_set, vec![(0, 1), (1, 2), (2, 1), (1, 3)]);
    assert_eq!(v1.face_set, vec![(0, 1, 2), (2, 1, 3)]);
    let v3 = build_vertex(&idx, 3);
    assert_eq!(v3.edge_set, vec![(1, 3), (3, 2)]);
    let v9 = build_vertex(&idx, 9);
    assert!(v9.edge_set.is_empty() && v9.face_set.is_empty());
}

#[test]
fn incident_triangles_in_order() {
    let idx = quad();
    assert_eq!(incident_triangles(&idx, 2), vec![0, 1]);
    assert_eq!(incident_triangles(&idx, 0), vec![0]);
    assert_eq!(incident_triangles(&idx, 3), vec![1]);
    let trailing = vec![0, 1, 2, 0];
    assert_eq!(incident_triangles(&trailing, 0), vec![0]);
}

#[test]
fn initialize_builds_one_record_per_vertex() {
    let idx = quad();
    let (table, tri_num) = initialize(&idx, 5);
    assert_eq!(tri_num, 2);
    assert_eq!(table.len(), 5);
    assert_eq!(table[&2].face_set, vec![(0, 1, 2), (2, 1, 3)]);
    assert!(table[&4].edge_set.is_empty());
    assert!(!table.contains_key(&5));
}

#[test]
fn canonical_pair_orders_ends() {
    assert_eq!(canonical_pair((5, 2)), (2, 5));
    assert_eq!(canonical_pair((2, 5)), (2, 5));
    assert_eq!(canonical_pair((3, 3)), (3, 3));
}

#[test]
fn connected_pairs_are_added_once() {
    let mut table: HashMap<u32, Vertex> = HashMap::new();
    table.insert(0, Vertex::new(vec![(0, 1), (2, 0)], vec![]));
    table.insert(1, Vertex::new(vec![(1, 0), (1, 2)], vec![]));
    let mut valid: Vec<(u32, u32)> = vec![(0, 2), (7, 9)];
    add_connected_pairs(&mut valid, &table);
    assert_eq!(&valid[..2], &[(0, 2), (7, 9)]);
    let mut rest: Vec<(u32, u32)> = valid[2..].to_vec();
    rest.sort();
    assert_eq!(rest, vec![(0, 1), (1, 2)]);
}

#[test]
fn vertex_records_count_their_triangles() {
    let idx: Vec<u32> = vec![0, 1, 2, 2, 1, 3, 3, 4, 2];
    for v in 0..5u32 {
        let rec = build_vertex(&idx, v);
        let inc = incident_triangles(&idx, v);
        assert_eq!(rec.face_set.len(), inc.len());
        assert_eq!(rec.edge_set.len(), 2 * rec.face_set.len());
        assert!(rec.edge_set.iter().all(|e| e.0 == v || e.1 == v));
        for (k, j) in inc.iter().enumerate() {
            assert_eq!(rec.face_set[k], (idx[3 * j], idx[3 * j + 1], idx[3 * j + 2]));
        }
    }
}

use glb_decimate::decode::read_indices;
use glb_decimate::glb::Prim;
use glb_decimate::repack::{
    binary_sections, buffer_offsets, json_edits, pack_indices, section_sizes, JsonEdit, RepackError, Section,
};
use glb_decimate::unpack::build_primitives;
use glb_decimate::unpack::AttributeSlots;

#[test]
fn sections_follow_buffer_views() {
    assert_eq!(
        binary_sections(0, 1, 2, 3),
        vec![Section::Indices, Section::Normal, Section::Position, Section::Texcoord0]
    );
    assert_eq!(binary_sections(3, 2, 1, 0), vec![Section::Texcoord0, Section::Position, Section::Normal, Section::Indices]);
    assert_eq!(binary_sections(1, 1, 7, 0), vec![Section::Texcoord0, Section::Indices]);
}

#[test]
fn section_sizes_per_entry() {
    let s = section_sizes(6, 4, 4, 4).unwrap();
    assert_eq!((s.indices, s.normal, s.position, s.texcoord_0), (72, 48, 48, 32));
    assert!(section_sizes(usize::MAX / 12 + 1, 0, 0, 0).is_none());
}

#[test]
fn offsets_by_accessor_number() {
    let slots = AttributeSlots { indices: 3, normal: 1, position: 0, tangent: -1, texcoord_0: 2 };
    let sizes = section_sizes(6, 4, 4, 4).unwrap();
    let (offs, total) = buffer_offsets(&slots, &sizes).unwrap();
    assert_eq!(
        offs,
        vec![(Section::Position, 0), (Section::Normal, 48), (Section::Texcoord0, 96), (Section::Indices, 128)]
    );
    assert_eq!(total, 200);
    let missing = AttributeSlots { indices: -1, normal: 0, position: 5, tangent: -1, texcoord_0: 1 };
    let (offs2, total2) = buffer_offsets(&missing, &sizes).unwrap();
    assert_eq!(offs2, vec![(Section::Normal, 0), (Section::Texcoord0, 48)]);
    assert_eq!(total2, 80);
}

#[test]
fn pack_renumbers_alive_vertices() {
    let alive = vec![true, false, true, true, false, true];
    let idx: Vec<u32> = vec![0, 2, 3, 3, 5, 0];
    let (list, bytes) = pack_indices(&idx, &alive, 5123);
    assert_eq!(list, vec![0, 1, 2, 2, 3, 0]);
    assert_eq!(bytes, vec![0, 0, 1, 0, 2, 0, 2, 0, 3, 0, 0, 0]);
    let (_, bytes8) = pack_indices(&idx, &alive, 5121);
    assert_eq!(bytes8, vec![0, 1, 2, 2, 3, 0]);
    let (_, bytes32) = pack_indices(&idx, &alive, 5125);
    assert_eq!(bytes32.len(), 24);
    assert_eq!(read_indices(&bytes32, 0, 5125, 6), Some(list.clone()));
    assert_eq!(read_indices(&bytes, 0, 5123, 6), Some(list));
}

#[test]
fn pack_empty_list_in_any_type() {
    let alive = vec![true, false, true];
    assert_eq!(pack_indices(&vec![], &alive, 5126), (vec![], vec![]));
    assert_eq!(pack_indices(&vec![2, 0], &alive, 5125), (vec![1, 0], vec![1, 0, 0, 0, 0, 0, 0, 0]));
}

#[test]
fn pack_skips_dead_vertices() {
    // a vertex numbered after many dead ones keeps its count of alive predecessors
    let mut alive = vec![false; 70000];
    alive[5] = true;
    alive[69999] = true;
    let (list, bytes) = pack_indices(&vec![69999, 5], &alive, 5123);
    assert_eq!(list, vec![1, 0]);
    assert_eq!(bytes, vec![1, 0, 0, 0]);
}

#[test]
fn pack_truncates_to_width() {
    let alive = vec![true; 300];
    let idx: Vec<u32> = vec![299];
    let (list, bytes) = pack_indices(&idx, &alive, 5121);
    assert_eq!(list, vec![299]);
    assert_eq!(bytes, vec![(299u32 % 256) as u8]);
    let (_, signed) = pack_indices(&idx, &alive, 5120);
    assert_eq!(signed, vec![(299i32 as i8) as u8]);
}

#[test]
fn json_edits_in_writing_order() {
    let slots = AttributeSlots { indices: 0, normal: 1, position: 2, tangent: -1, texcoord_0: 3 };
    let prims: Vec<Prim> = (0..4u32).map(|k| Prim::new(3 - k, 0, 5126, false, 1, String::from("VEC3"))).collect();
    let table = build_primitives(prims, &slots);
    let edits = json_edits(&slots, &table, 6, 4, 4, 4).unwrap();
    assert_eq!(
        edits,
        vec![
            JsonEdit::AccessorCount(0, 6),
            JsonEdit::AccessorCount(1, 4),
            JsonEdit::AccessorCount(2, 4),
            JsonEdit::AccessorCount(3, 4),
            JsonEdit::ViewByteLength(3, 72),
            JsonEdit::ViewByteLength(2, 48),
            JsonEdit::ViewByteLength(1, 48),
            JsonEdit::ViewByteLength(0, 32),
            JsonEdit::ViewByteOffset(3, 0),
            JsonEdit::ViewByteOffset(2, 72),
            JsonEdit::ViewByteOffset(1, 120),
            JsonEdit::ViewByteOffset(0, 168),
            JsonEdit::BufferByteLength(200),
        ]
    );
    assert_eq!(json_edits(&slots, &table, usize::MAX, 0, 0, 0), Err(RepackError::Overflow));
}

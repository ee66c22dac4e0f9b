use glb_decimate::buffer_view::View;
use glb_decimate::glb::Prim;
use glb_decimate::unpack::{
    accessor_role, build_primitives, unpack_attribute, unpack_indices, AttributeData, AttributeSlots, Role,
    UnpackError,
};

fn slots() -> AttributeSlots {
    AttributeSlots { indices: 0, normal: 1, position: 2, tangent: -1, texcoord_0: 3 }
}

fn prim(view: u32, t: u32, count: u32) -> Prim {
    Prim::new(view, 0, t, false, count, String::from("SCALAR"))
}

#[test]
fn roles_by_slot() {
    let s = slots();
    assert_eq!(accessor_role(0, &s), Role::Indices);
    assert_eq!(accessor_role(1, &s), Role::Normal);
    assert_eq!(accessor_role(2, &s), Role::Position);
    assert_eq!(accessor_role(3, &s), Role::Texcoord0);
    assert_eq!(accessor_role(4, &s), Role::Other);
    let same = AttributeSlots { indices: 0, normal: 0, position: 0, tangent: 0, texcoord_0: 0 };
    assert_eq!(accessor_role(0, &same), Role::Indices);
}

#[test]
fn table_keeps_last_accessor_of_each_role() {
    let accs = vec![prim(0, 5123, 3), prim(1, 5126, 3), prim(2, 5126, 3), prim(3, 5126, 3), prim(4, 1, 1), prim(5, 2, 2)];
    let table = build_primitives(accs, &slots());
    assert_eq!(table.get(Role::Indices).unwrap().bufferView, 0);
    assert_eq!(table.get(Role::Other).unwrap().bufferView, 5);
    assert!(table.get(Role::Tangent).is_none());
    assert_eq!(table.get(Role::Texcoord0).unwrap().bufferView, 3);
}

fn sample() -> (Vec<u8>, Vec<View>) {
    let mut bin: Vec<u8> = Vec::new();
    for i in [0u16, 1, 2] {
        bin.extend_from_slice(&i.to_le_bytes());
    }
    bin.extend_from_slice(&[0, 0]);
    // three normals of three floats each, at byte 8
    for k in 0..9u32 {
        bin.extend_from_slice(&(k as f32).to_bits().to_le_bytes());
    }
    let views = vec![View::new(0, 6, 0), View::new(0, 36, 8)];
    (bin, views)
}

#[test]
fn indices_read_from_their_view() {
    let (bin, views) = sample();
    let table = build_primitives(vec![prim(0, 5123, 3), prim(1, 5126, 3)], &slots());
    assert_eq!(unpack_indices(&bin, &views, &table, &slots()), Ok(vec![0, 1, 2]));
    let no_view = AttributeSlots { indices: -1, ..slots() };
    assert_eq!(unpack_indices(&bin, &views, &table, &no_view), Ok(vec![]));
    let long = build_primitives(vec![prim(0, 5125, 100)], &slots());
    assert_eq!(unpack_indices(&bin, &views, &long, &slots()), Err(UnpackError::OutOfBounds));
    let none = build_primitives(vec![], &slots());
    assert_eq!(unpack_indices(&bin, &views, &none, &no_view), Ok(vec![]));
}

#[test]
fn attributes_read_per_index() {
    let (bin, views) = sample();
    let table = build_primitives(vec![prim(0, 5123, 3), prim(1, 5126, 3)], &slots());
    let idx: Vec<u32> = vec![2, 0];
    match unpack_attribute(&bin, &views, &table, 1, Role::Normal, 3, &idx) {
        Ok(AttributeData::Words(w)) => {
            assert_eq!(w.len(), 2);
            assert_eq!(f32::from_bits(w[0][0]), 6.0);
            assert_eq!(f32::from_bits(w[0][2]), 8.0);
            assert_eq!(f32::from_bits(w[1][1]), 1.0);
        },
        _ => panic!("normals expected"),
    }
    assert!(matches!(unpack_attribute(&bin, &views, &table, 7, Role::Normal, 3, &idx), Ok(AttributeData::Absent)));
    assert!(matches!(unpack_attribute(&bin, &views, &table, 0, Role::Indices, 3, &idx), Ok(AttributeData::NotFloat)));
    assert!(matches!(unpack_attribute(&bin, &views, &table, -1, Role::Tangent, 4, &idx), Ok(AttributeData::Absent)));
    let far: Vec<u32> = vec![5];
    assert!(matches!(unpack_attribute(&bin, &views, &table, 1, Role::Normal, 3, &far), Err(UnpackError::OutOfBounds)));
}

use glb_decimate::component::{
    byte_f32, byte_i16, byte_i8, byte_u16, byte_u32, byte_u8, component_layout, element_num, read_elements,
    ComponentKind, DataType,
};

#[test]
fn component_conversions() {
    assert_eq!(DataType::I8(-1).to_uint(), Some(0xFFFF_FFFF));
    assert_eq!(DataType::I8(-1).to_int(), Some(-1));
    assert_eq!(DataType::U16(500).to_uint(), Some(500));
    assert_eq!(DataType::I16(-300).to_int(), Some(-300));
    assert_eq!(DataType::U32(7).to_int(), Some(7));
    assert_eq!(DataType::F32(1.5f32.to_bits()).to_uint(), None);
    assert_eq!(DataType::F32(1.5f32.to_bits()).to_int(), None);
}

#[test]
fn component_equality() {
    assert_eq!(DataType::U8(3).eq_value(&DataType::U8(3)), Some(true));
    assert_eq!(DataType::U8(3).eq_value(&DataType::U16(3)), Some(false));
    assert_eq!(DataType::U32(9).eq_value(&DataType::U32(9)), Some(true));
    assert_eq!(DataType::U32(9).eq_value(&DataType::U32(2)), Some(false));
    assert_eq!(DataType::F32(0).eq_value(&DataType::F32(0)), None);
}

#[test]
fn component_readers() {
    let b: Vec<u8> = vec![0xFE, 0xFF, 0x00, 0x00, 0x80, 0x3F];
    assert!(matches!(byte_i8(&b, 0), DataType::I8(-2)));
    assert!(matches!(byte_u8(&b, 0), DataType::U8(0xFE)));
    assert!(matches!(byte_i16(&b, 0), DataType::I16(-2)));
    assert!(matches!(byte_u16(&b, 0), DataType::U16(0xFFFE)));
    assert!(matches!(byte_u32(&b, 0), DataType::U32(0x0000_FFFE)));
    match byte_f32(&b, 2) {
        DataType::F32(bits) => assert_eq!(f32::from_bits(bits), 1.0),
        _ => panic!("float expected"),
    }
}

#[test]
fn component_tables() {
    assert_eq!(component_layout(5120), (ComponentKind::I8, 1));
    assert_eq!(component_layout(5123), (ComponentKind::U16, 2));
    assert_eq!(component_layout(5126), (ComponentKind::F32, 4));
    assert_eq!(component_layout(5124), (ComponentKind::Unknown, 0));
    assert_eq!(element_num("SCALAR"), 1);
    assert_eq!(element_num("VEC3"), 3);
    assert_eq!(element_num("MAT2"), 4);
    assert_eq!(element_num("MAT4"), 16);
    assert_eq!(element_num("VEC5"), 0);
    assert_eq!(element_num(""), 0);
}

#[test]
fn elements_read_in_order() {
    let b: Vec<u8> = vec![9, 1, 0, 2, 0, 3, 0, 4, 0];
    let v = read_elements(&b, 1, ComponentKind::U16, 2, 2, 2).unwrap();
    let vals: Vec<u32> = v.iter().map(|d| d.to_uint().unwrap()).collect();
    assert_eq!(vals, vec![1, 2, 3, 4]);
    assert!(read_elements(&b, 2, ComponentKind::U16, 2, 2, 2).is_none());
    assert_eq!(read_elements(&b, 0, ComponentKind::Unknown, 0, 5, 5).unwrap().len(), 0);
    assert_eq!(read_elements(&b, 100, ComponentKind::U8, 1, 0, 3).unwrap().len(), 0);
}

use glb_decimate::decode::{byte_i16, byte_i8, byte_u16, byte_u32, byte_u8, read_indices, read_item_words};

#[test]
fn byte_readers_decode_little_endian() {
    let buff: Vec<u8> = vec![0x01, 0x02, 0x03, 0x04, 0xFF, 0x80];
    assert_eq!(byte_u8(&buff, 0), 1);
    assert_eq!(byte_u8(&buff, 4), 255);
    assert_eq!(byte_u16(&buff, 0), 0x0201);
    assert_eq!(byte_u32(&buff, 0), 0x0403_0201);
    assert_eq!(byte_u32(&buff, 2), 0x80FF_0403);
}

#[test]
fn signed_readers_widen_in_twos_complement() {
    let buff: Vec<u8> = vec![0xFF, 0x7F, 0x00, 0x80, 0xFE, 0xFF];
    assert_eq!(byte_i8(&buff, 0), (-1i8) as u32);
    assert_eq!(byte_i8(&buff, 0), 0xFFFF_FFFF);
    assert_eq!(byte_i8(&buff, 1), 0x7F);
    assert_eq!(byte_i8(&buff, 3), 0xFFFF_FF80);
    assert_eq!(byte_i16(&buff, 2), 0xFFFF_8000);
    assert_eq!(byte_i16(&buff, 4), (-2i16) as u32);
    assert_eq!(byte_i16(&buff, 1), 0x007F);
}

#[test]
fn signed_and_unsigned_agree_below_sign_bit() {
    let buff: Vec<u8> = vec![0x34, 0x12];
    assert_eq!(byte_i8(&buff, 0), byte_u8(&buff, 0));
    assert_eq!(byte_i16(&buff, 0), byte_u16(&buff, 0));
}

#[test]
fn read_indices_of_each_type() {
    let buff: Vec<u8> = vec![9, 0, 1, 0, 2, 0, 3, 0, 0xFF, 0xFF];
    assert_eq!(read_indices(&buff, 2, 5123, 3), Some(vec![1, 2, 3]));
    assert_eq!(read_indices(&buff, 0, 5121, 2), Some(vec![9, 0]));
    assert_eq!(read_indices(&buff, 8, 5122, 1), Some(vec![0xFFFF_FFFF]));
    assert_eq!(read_indices(&buff, 8, 5123, 1), Some(vec![0xFFFF]));
    assert_eq!(read_indices(&buff, 2, 5125, 2), Some(vec![0x0002_0001, 0xFFFF_0003]));
    assert_eq!(read_indices(&buff, 8, 5120, 2), Some(vec![0xFFFF_FFFF, 0xFFFF_FFFF]));
}

#[test]
fn read_indices_refuses_what_it_cannot_read() {
    let buff: Vec<u8> = vec![1, 2, 3, 4];
    assert_eq!(read_indices(&buff, 0, 5126, 1), None);
    assert_eq!(read_indices(&buff, 0, 9999, 0), None);
    assert_eq!(read_indices(&buff, 0, 5125, 2), None);
    assert_eq!(read_indices(&buff, 3, 5123, 1), None);
    assert_eq!(read_indices(&buff, 4, 5121, 0), Some(vec![]));
    assert_eq!(read_indices(&buff, 0xFFFF_FFFF, 5121, 2), None);
}

#[test]
fn read_item_words_by_index() {
    let mut buff: Vec<u8> = Vec::new();
    for w in 0u32..12 {
        buff.extend_from_slice(&(w * 10).to_le_bytes());
    }
    let idx: Vec<u32> = vec![2, 0, 2];
    let words = read_item_words(&buff, 4, &idx, 3).unwrap();
    assert_eq!(words, vec![vec![70, 80, 90], vec![10, 20, 30], vec![70, 80, 90]]);
    let idx_far: Vec<u32> = vec![3];
    assert_eq!(read_item_words(&buff, 4, &idx_far, 3), None);
    assert_eq!(read_item_words(&buff, 0, &idx_far, 3), Some(vec![vec![90, 100, 110]]));
}

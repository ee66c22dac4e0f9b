use glb_decimate::buffer_view::View;
use glb_decimate::glb::{glb_bytes, glb_lengths, load_glb, split_glb, GlbError, Prim};

#[test]
fn glb_bytes_layout() {
    let json: Vec<u8> = b"{}".to_vec();
    let bin: Vec<u8> = vec![1, 2, 3, 4];
    let (j, b, t) = glb_lengths(json.len(), bin.len()).unwrap();
    assert_eq!((j, b, t), (2, 4, 34));
    let out = glb_bytes(2, t, j, &json, b, &bin);
    let mut expected: Vec<u8> = Vec::new();
    expected.extend_from_slice(b"glTF");
    expected.extend_from_slice(&2u32.to_le_bytes());
    expected.extend_from_slice(&34u32.to_le_bytes());
    expected.extend_from_slice(&2u32.to_le_bytes());
    expected.extend_from_slice(b"JSON");
    expected.extend_from_slice(b"{}");
    expected.extend_from_slice(&4u32.to_le_bytes());
    expected.extend_from_slice(b"BIN\x00");
    expected.extend_from_slice(&[1, 2, 3, 4]);
    assert_eq!(out, expected);
    assert_eq!(out.len() as u32, t);
}

#[test]
fn glb_written_then_split() {
    let json: Vec<u8> = b"{\"asset\":{}}".to_vec();
    let bin: Vec<u8> = vec![9, 8, 7];
    let (j, b, t) = glb_lengths(json.len(), bin.len()).unwrap();
    let out = glb_bytes(2, t, j, &json, b, &bin);
    let (sj, sb) = split_glb(&out).unwrap();
    assert_eq!(sj, &json[..]);
    assert_eq!(sb, &bin[..]);
}

#[test]
fn split_glb_refuses_short_files() {
    assert!(split_glb(&[0u8; 15]).is_none());
    let mut header = vec![0u8; 16];
    header[12] = 10;
    assert!(split_glb(&header).is_none());
    let mut ok = vec![0u8; 28];
    ok[12] = 0;
    let (j, b) = split_glb(&ok).unwrap();
    assert!(j.is_empty());
    assert!(b.is_empty());
}

#[test]
fn glb_lengths_overflow() {
    assert!(glb_lengths(0xFFFF_FFF0, 0x10).is_none());
    assert_eq!(glb_lengths(0xFFFF_FFFF - 28, 0), Some((0xFFFF_FFFF - 28, 0, 0xFFFF_FFFF)));
}

#[test]
fn prim_and_view_records() {
    let p = Prim::new(1, 2, 5126, true, 7, String::from("VEC3"));
    assert_eq!(p.bufferView, 1);
    assert_eq!(p.byteOffset, 2);
    assert_eq!(p.componentType, 5126);
    assert!(p.normalized);
    assert_eq!(p.count, 7);
    assert_eq!(p.prim_type, "VEC3");
    let v = View::new(0, 48, 16);
    assert_eq!((v.buffer, v.byteLength, v.byteOffset), (0, 48, 16));
}

#[test]
fn stored_glb_loads_back() {
    let doc: serde_json::Value =
        serde_json::from_str(r#"{"asset": {"version": "2.0"}, "buffers": [{"byteLength": 3}]}"#).unwrap();
    let bin: Vec<u8> = vec![5, 6, 7];
    let bytes = glb_decimate::glb::store_glb(2, &doc, &bin).unwrap();
    assert_eq!(&bytes[0..4], b"glTF");
    assert_eq!(u32::from_le_bytes([bytes[8], bytes[9], bytes[10], bytes[11]]) as usize, bytes.len());
    let (back, back_bin) = glb_decimate::glb::load_glb(&bytes).unwrap();
    assert_eq!(back, doc);
    assert_eq!(back_bin, &bin[..]);
}

#[test]
fn load_glb_errors() {
    assert!(split_glb(&[0u8; 10]).is_none());
    let bad = glb_bytes(2, 30, 2, b"{x", 0, &[]);
    assert_eq!(load_glb(&bad).err(), Some(GlbError::InvalidJson));
}

use glb_decimate::records::{read_records, RecordError};

fn doc(text: &str) -> serde_json::Value {
    serde_json::from_str(text).unwrap()
}

#[test]
fn records_read_with_defaults() {
    let d = doc(
        r#"{
            "bufferViews": [
                {"buffer": 0, "byteLength": 72, "byteOffset": 8},
                {"byteLength": 48}
            ],
            "meshes": [{"primitives": [{"indices": 3, "attributes": {"NORMAL": 1, "POSITION": 0, "TEXCOORD_0": 2}}]}],
            "accessors": [
                {"bufferView": 1, "componentType": 5126, "count": 4, "type": "VEC3"},
                {"bufferView": 2, "byteOffset": 4, "componentType": 5123, "normalized": true, "count": 6, "type": "SCALAR"}
            ]
        }"#,
    );
    let (views, slots, accessors) = read_records(&d).unwrap();
    assert_eq!(views.len(), 2);
    assert_eq!((views[0].buffer, views[0].byteLength, views[0].byteOffset), (0, 72, 8));
    assert_eq!((views[1].buffer, views[1].byteLength, views[1].byteOffset), (0, 48, 0));
    assert_eq!(
        (slots.indices, slots.normal, slots.position, slots.tangent, slots.texcoord_0),
        (3, 1, 0, -1, 2)
    );
    assert_eq!(accessors.len(), 2);
    assert_eq!((accessors[0].bufferView, accessors[0].byteOffset, accessors[0].componentType), (1, 0, 5126));
    assert!(!accessors[0].normalized);
    assert_eq!((accessors[0].count, accessors[0].prim_type.as_str()), (4, "VEC3"));
    assert_eq!((accessors[1].byteOffset, accessors[1].componentType, accessors[1].count), (4, 5123, 6));
    assert!(accessors[1].normalized);
}

#[test]
fn records_of_an_empty_document() {
    let (views, slots, accessors) = read_records(&doc("{}")).unwrap();
    assert!(views.is_empty());
    assert!(accessors.is_empty());
    assert_eq!(
        (slots.indices, slots.normal, slots.position, slots.tangent, slots.texcoord_0),
        (-1, -1, -1, -1, -1)
    );
}

#[test]
fn records_truncate_large_numbers() {
    let d = doc(r#"{"bufferViews": [{"byteLength": 4294967297}]}"#);
    let (views, _, _) = read_records(&d).unwrap();
    assert_eq!(views[0].byteLength, 1);
}

#[test]
fn incomplete_accessor_refused() {
    let no_count = doc(r#"{"accessors": [{"componentType": 5126, "type": "VEC3"}]}"#);
    assert_eq!(read_records(&no_count).err(), Some(RecordError::IncompleteAccessor));
    let no_type = doc(r#"{"accessors": [{"componentType": 5126, "count": 3}]}"#);
    assert_eq!(read_records(&no_type).err(), Some(RecordError::IncompleteAccessor));
    let no_component = doc(r#"{"accessors": [{"count": 3, "type": "VEC3"}]}"#);
    assert_eq!(read_records(&no_component).err(), Some(RecordError::IncompleteAccessor));
}
